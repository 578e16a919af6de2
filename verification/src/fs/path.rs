//! Path syntax: components separated by '/', and the split of a path into
//! its parent directory and final name.
use vstd::prelude::*;
use crate::text::{push_char, texts};
use crate::fs::types::{FsError, error_text};

verus! {

/// Splits at every '/', keeping empty pieces.
pub open spec fn split_slash(p: Seq<char>) -> Seq<Seq<char>>
    decreases p.len(),
{
    if p.len() == 0 {
        seq![Seq::<char>::empty()]
    } else {
        let rest = split_slash(p.drop_last());
        if p.last() == '/' {
            rest.push(Seq::<char>::empty())
        } else {
            rest.update(rest.len() - 1, rest.last().push(p.last()))
        }
    }
}

pub open spec fn nonempty(c: Seq<char>) -> bool {
    c.len() > 0
}

/// The non-empty pieces between slashes, in order.
pub open spec fn components(p: Seq<char>) -> Seq<Seq<char>> {
    split_slash(p).filter(|c: Seq<char>| nonempty(c))
}

/// Bytes of a character in UTF-8.
pub open spec fn utf8_char_len(c: char) -> nat {
    if (c as u32) < 0x80 {
        1
    } else if (c as u32) < 0x800 {
        2
    } else if (c as u32) < 0x10000 {
        3
    } else {
        4
    }
}

/// Bytes of a text in UTF-8.
pub open spec fn text_bytes(s: Seq<char>) -> nat
    decreases s.len(),
{
    if s.len() == 0 {
        0
    } else {
        text_bytes(s.drop_last()) + utf8_char_len(s.last())
    }
}

/// The path without its leading slashes.
pub open spec fn trim_leading(p: Seq<char>) -> Seq<char>
    decreases p.len(),
{
    if p.len() > 0 && p[0] == '/' {
        trim_leading(p.drop_first())
    } else {
        p
    }
}

/// The index of the last slash, or -1.
pub open spec fn last_slash(t: Seq<char>) -> int
    decreases t.len(),
{
    if t.len() == 0 {
        -1
    } else if t.last() == '/' {
        t.len() - 1
    } else {
        last_slash(t.drop_last())
    }
}

/// The parent part of a path without leading slashes: "/" when it has no
/// slash, else everything before the last slash.
pub open spec fn parent_part(t: Seq<char>) -> Seq<char> {
    if last_slash(t) <= 0 {
        "/"@
    } else {
        t.subrange(0, last_slash(t))
    }
}

/// The final name of a path without leading slashes.
pub open spec fn name_part(t: Seq<char>) -> Seq<char> {
    if last_slash(t) <= 0 {
        t
    } else {
        t.subrange(last_slash(t) + 1, t.len() as int)
    }
}

/// A path can be split into parent and name: it is not empty, it is not
/// only slashes, and the name is not empty and at most 255 bytes.
pub open spec fn splits(p: Seq<char>) -> bool {
    &&& p.len() > 0
    &&& trim_leading(p).len() > 0
    &&& name_part(trim_leading(p)).len() > 0
    &&& text_bytes(name_part(trim_leading(p))) <= 255
}

proof fn lemma_split_slash_nonempty(p: Seq<char>)
    ensures
        split_slash(p).len() > 0,
    decreases p.len(),
{
    if p.len() > 0 {
        lemma_split_slash_nonempty(p.drop_last());
    }
}

proof fn lemma_components_step(p: Seq<char>, c: char)
    ensures
        split_slash(p.push(c)).drop_last() == (if c == '/' {
            split_slash(p)
        } else {
            split_slash(p).drop_last()
        }),
        split_slash(p.push(c)).last() == (if c == '/' {
            Seq::<char>::empty()
        } else {
            split_slash(p).last().push(c)
        }),
{
    lemma_split_slash_nonempty(p);
    assert(p.push(c).drop_last() =~= p);
    let s = split_slash(p);
    if c != '/' {
        assert(s.update(s.len() - 1, s.last().push(c)).drop_last() =~= s.drop_last());
    }
}

/// The non-empty components of a path.
pub fn path_components(path: &str) -> (r: Vec<String>)
    ensures
        texts(r@) == components(path@),
{
    let n = path.unicode_len();
    let mut done: Vec<String> = Vec::new();
    let mut cur = String::new();
    let mut i: usize = 0;
    let ghost pred = |c: Seq<char>| nonempty(c);
    proof {
        assert(path@.take(0) =~= Seq::<char>::empty());
        assert(split_slash(Seq::<char>::empty()).drop_last() =~= Seq::<Seq<char>>::empty());
        assert(texts(done@) =~= Seq::<Seq<char>>::empty().filter(pred));
    }
    while i < n
        invariant
            n == path@.len(),
            i <= n,
            pred == (|c: Seq<char>| nonempty(c)),
            split_slash(path@.take(i as int)).last() == cur@,
            split_slash(path@.take(i as int)).drop_last().filter(pred) == texts(done@),
        decreases n - i,
    {
        let c = path.get_char(i);
        let ghost pre = path@.take(i as int);
        proof {
            assert(path@.take(i + 1) =~= pre.push(c));
            lemma_components_step(pre, c);
            lemma_split_slash_nonempty(pre);
        }
        if c == '/' {
            proof {
                let s = split_slash(pre);
                assert(s =~= s.drop_last().push(s.last()));
                s.drop_last().lemma_filter_push(s.last(), pred);
            }
            if cur.unicode_len() > 0 {
                let ghost prev = done@;
                done.push(cur);
                assert(texts(done@) =~= texts(prev).push(split_slash(pre).last()));
            }
            cur = String::new();
        } else {
            push_char(&mut cur, c);
        }
        i += 1;
    }
    proof {
        let s = split_slash(path@.take(n as int));
        lemma_split_slash_nonempty(path@.take(n as int));
        assert(s =~= s.drop_last().push(s.last()));
        s.drop_last().lemma_filter_push(s.last(), pred);
        assert(path@.take(n as int) =~= path@);
    }
    if cur.unicode_len() > 0 {
        let ghost prev = done@;
        done.push(cur);
        assert(texts(done@) =~= texts(prev).push(split_slash(path@).last()));
    }
    done
}

fn char_utf8_len(c: char) -> (r: u64)
    ensures
        r == utf8_char_len(c),
{
    let v = c as u32;
    if v < 0x80 {
        1
    } else if v < 0x800 {
        2
    } else if v < 0x10000 {
        3
    } else {
        4
    }
}

/// Whether a name takes more than 255 bytes in UTF-8.
pub fn exceeds_name_limit(name: &str) -> (r: bool)
    ensures
        r == (text_bytes(name@) > 255),
{
    let n = name.unicode_len();
    let mut total: u64 = 0;
    let mut i: usize = 0;
    while i < n
        invariant
            n == name@.len(),
            i <= n,
            total == text_bytes(name@.take(i as int)),
            total <= 255,
        decreases n - i,
    {
        let c = name.get_char(i);
        proof {
            assert(name@.take(i + 1).drop_last() =~= name@.take(i as int));
        }
        total = total + char_utf8_len(c);
        i += 1;
        if total > 255 {
            proof {
                lemma_text_bytes_prefix(name@, i as int);
            }
            return true;
        }
    }
    assert(name@.take(n as int) =~= name@);
    false
}

proof fn lemma_text_bytes_prefix(s: Seq<char>, k: int)
    requires
        0 <= k <= s.len(),
    ensures
        text_bytes(s.take(k)) <= text_bytes(s),
    decreases s.len(),
{
    if k < s.len() {
        lemma_text_bytes_prefix(s.drop_last(), k);
        assert(s.drop_last().take(k) =~= s.take(k));
    } else {
        assert(s.take(k) =~= s);
    }
}

/// The position of the first character that is not a slash.
fn leading_slashes(p: &str) -> (r: usize)
    ensures
        r <= p@.len(),
        trim_leading(p@) == p@.subrange(r as int, p@.len() as int),
{
    let n = p.unicode_len();
    let mut i: usize = 0;
    proof {
        assert(p@.subrange(0, n as int) =~= p@);
    }
    while i < n && p.get_char(i) == '/'
        invariant
            n == p@.len(),
            i <= n,
            trim_leading(p@) == trim_leading(p@.subrange(i as int, n as int)),
        decreases n - i,
    {
        assert(p@.subrange(i as int, n as int).drop_first() =~= p@.subrange(i + 1, n as int));
        i += 1;
    }
    if i < n {
        assert(p@.subrange(i as int, n as int)[0] == p@[i as int]);
    }
    i
}

/// The index of the last slash of a string, or `None`.
fn find_last_slash(t: &str) -> (r: Option<usize>)
    ensures
        match r {
            Some(k) => k as int == last_slash(t@) && k < t@.len(),
            None => last_slash(t@) == -1,
        },
{
    let n = t.unicode_len();
    let mut i: usize = n;
    proof {
        assert(t@.take(n as int) =~= t@);
    }
    while i > 0
        invariant
            n == t@.len(),
            i <= n,
            last_slash(t@) == last_slash(t@.take(i as int)),
        decreases i,
    {
        if t.get_char(i - 1) == '/' {
            return Some(i - 1);
        }
        assert(t@.take(i as int).drop_last() =~= t@.take(i - 1));
        i -= 1;
    }
    None
}

/// Why a path cannot be split into parent and name.
pub open spec fn split_error(p: Seq<char>) -> Seq<char> {
    if p.len() == 0 {
        "路径为空"@
    } else if trim_leading(p).len() == 0 {
        "不能在根目录上执行此操作"@
    } else {
        "无效文件名: '"@ + name_part(trim_leading(p)) + "'"@
    }
}

/// Splits a path into its parent path and final name, as the creation and
/// removal operations need; the error says why a path cannot be split.
pub fn split_parent(path: &str) -> (r: Result<(String, String), FsError>)
    ensures
        match r {
            Ok((parent, name)) => splits(path@) && parent@ == parent_part(trim_leading(path@))
                && name@ == name_part(trim_leading(path@)),
            Err(e) => !splits(path@) && e is InvalidPath && error_text(e) == split_error(path@),
        },
{
    if path.unicode_len() == 0 {
        return Err(FsError::InvalidPath(String::from_str("路径为空")));
    }
    let start = leading_slashes(path);
    let n = path.unicode_len();
    let t = path.substring_char(start, n);
    if t.unicode_len() == 0 {
        return Err(FsError::InvalidPath(String::from_str("不能在根目录上执行此操作")));
    }
    let (parent, name) = match find_last_slash(t) {
        Some(k) => {
            if k == 0 {
                (String::from_str("/"), String::from_str(t))
            } else {
                (
                    String::from_str(t.substring_char(0, k)),
                    String::from_str(t.substring_char(k + 1, t.unicode_len())),
                )
            }
        },
        None => (String::from_str("/"), String::from_str(t)),
    };
    if name.unicode_len() == 0 || exceeds_name_limit(name.as_str()) {
        let mut msg = String::from_str("无效文件名: '");
        msg.append(name.as_str());
        msg.append("'");
        return Err(FsError::InvalidPath(msg));
    }
    Ok((parent, name))
}

} // verus!
