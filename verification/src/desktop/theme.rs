//! Colors, the settings of a theme that hold no fractional values, and the
//! registry that keeps themes by name.
use vstd::prelude::*;
use crate::desktop::error::DesktopError;
use crate::text::{str_equal, copy_string};

verus! {

/// A color as ARGB8888: alpha in the top byte, then red, green and blue.
#[derive(Debug, Clone, Copy, PartialEq, Eq, Structural)]
pub struct Color(pub u32);

/// The color word with the four channels in place.
pub open spec fn argb(a: u8, r: u8, g: u8, b: u8) -> u32 {
    ((a as u32) << 24u32) | ((r as u32) << 16u32) | ((g as u32) << 8u32) | (b as u32)
}

impl Color {
    pub fn from_argb(a: u8, r: u8, g: u8, b: u8) -> (c: Color)
        ensures
            c.0 == argb(a, r, g, b),
    {
        Color(((a as u32) << 24u32) | ((r as u32) << 16u32) | ((g as u32) << 8u32) | (b as u32))
    }

    /// An opaque color.
    pub fn from_rgb(r: u8, g: u8, b: u8) -> (c: Color)
        ensures
            c.0 == argb(0xFF, r, g, b),
    {
        Color::from_argb(0xFF, r, g, b)
    }

    pub fn alpha(&self) -> (r: u8)
        ensures
            r == (self.0 >> 24u32) & 0xFF,
    {
        let v = self.0;
        assert((v >> 24u32) & 0xFF < 256) by (bit_vector);
        ((self.0 >> 24u32) & 0xFF) as u8
    }

    pub fn red(&self) -> (r: u8)
        ensures
            r == (self.0 >> 16u32) & 0xFF,
    {
        let v = self.0;
        assert((v >> 16u32) & 0xFF < 256) by (bit_vector);
        ((self.0 >> 16u32) & 0xFF) as u8
    }

    pub fn green(&self) -> (r: u8)
        ensures
            r == (self.0 >> 8u32) & 0xFF,
    {
        let v = self.0;
        assert((v >> 8u32) & 0xFF < 256) by (bit_vector);
        ((self.0 >> 8u32) & 0xFF) as u8
    }

    pub fn blue(&self) -> (r: u8)
        ensures
            r == self.0 & 0xFF,
    {
        let v = self.0;
        assert(v & 0xFF < 256) by (bit_vector);
        (self.0 & 0xFF) as u8
    }
}

/// A color built from four channels gives those channels back.
pub proof fn law_channels_roundtrip(a: u8, r: u8, g: u8, b: u8)
    ensures
        (argb(a, r, g, b) >> 24u32) & 0xFF == a,
        (argb(a, r, g, b) >> 16u32) & 0xFF == r,
        (argb(a, r, g, b) >> 8u32) & 0xFF == g,
        argb(a, r, g, b) & 0xFF == b,
{
    assert((((a as u32) << 24u32) | ((r as u32) << 16u32) | ((g as u32) << 8u32) | (b as u32)) >> 24u32 & 0xFF == a)
        by (bit_vector);
    assert((((a as u32) << 24u32) | ((r as u32) << 16u32) | ((g as u32) << 8u32) | (b as u32)) >> 16u32 & 0xFF == r)
        by (bit_vector);
    assert((((a as u32) << 24u32) | ((r as u32) << 16u32) | ((g as u32) << 8u32) | (b as u32)) >> 8u32 & 0xFF == g)
        by (bit_vector);
    assert((((a as u32) << 24u32) | ((r as u32) << 16u32) | ((g as u32) << 8u32) | (b as u32)) & 0xFF == b) by (bit_vector);
}

/// The colors of a theme.
#[derive(Debug, Clone)]
pub struct ThemeColors {
    pub background: Color,
    pub foreground: Color,
    pub accent: Color,
    pub surface: Color,
    pub border: Color,
    pub error: Color,
    pub text_primary: Color,
    pub text_secondary: Color,
}

/// How a theme animates.
#[derive(Debug, Clone)]
pub struct AnimationConfig {
    pub duration_ms: u32,
    pub easing: String,
}

/// The entries whose name differs from `n`, in their order.
pub open spec fn without_name<T>(s: Seq<(Seq<char>, T)>, n: Seq<char>) -> Seq<(Seq<char>, T)>
    decreases s.len(),
{
    if s.len() == 0 {
        s
    } else if s.last().0 == n {
        without_name(s.drop_last(), n)
    } else {
        without_name(s.drop_last(), n).push(s.last())
    }
}

/// No two entries share a name.
pub open spec fn names_distinct<T>(s: Seq<(Seq<char>, T)>) -> bool {
    forall|i: int, j: int| 0 <= i < s.len() && 0 <= j < s.len() && i != j ==> #[trigger] s[i].0 != #[trigger] s[j].0
}

/// Some entry has the name.
pub open spec fn has_name<T>(s: Seq<(Seq<char>, T)>, n: Seq<char>) -> bool {
    exists|k: int| 0 <= k < s.len() && #[trigger] s[k].0 == n
}

proof fn lemma_without_name<T>(s: Seq<(Seq<char>, T)>, n: Seq<char>)
    ensures
        forall|k: int| 0 <= k < without_name(s, n).len() ==> #[trigger] without_name(s, n)[k].0 != n,
        forall|k: int|
            0 <= k < without_name(s, n).len() ==> s.contains(#[trigger] without_name(s, n)[k]),
        names_distinct(s) ==> names_distinct(without_name(s, n)),
    decreases s.len(),
{
    if s.len() > 0 {
        let d = s.drop_last();
        lemma_without_name(d, n);
        let w = without_name(d, n);
        assert forall|k: int| 0 <= k < without_name(s, n).len() implies s.contains(
            #[trigger] without_name(s, n)[k],
        ) by {
            if k < w.len() {
                let j = choose|j: int| 0 <= j < d.len() && d[j] == w[k];
                assert(s[j] == d[j]);
            } else {
                assert(s[s.len() - 1] == s.last());
            }
        }
        if names_distinct(s) {
            assert(names_distinct(d)) by {
                assert forall|i: int, j: int| 0 <= i < d.len() && 0 <= j < d.len() && i != j implies #[trigger] d[i].0
                    != #[trigger] d[j].0 by {
                    assert(d[i] == s[i] && d[j] == s[j]);
                }
            }
            if s.last().0 != n {
                assert forall|k: int| 0 <= k < w.len() implies #[trigger] w[k].0 != s.last().0 by {
                    let j = choose|j: int| 0 <= j < d.len() && d[j] == w[k];
                    assert(s[j] == d[j]);
                    assert(s[s.len() - 1] == s.last());
                }
            }
        }
    }
}

/// Themes by name, at most one per name, in the order they were added, and
/// a copy of the theme in use. Apart from its name, nothing in a theme is
/// looked at here.
pub struct ThemeRegistry<T> {
    current: T,
    themes: Vec<(String, T)>,
}

impl<T: Clone> ThemeRegistry<T> {
    /// The themes with their names, in order.
    pub closed spec fn entries(&self) -> Seq<(Seq<char>, T)> {
        self.themes@.map_values(|e: (String, T)| (e.0@, e.1))
    }

    /// The theme in use.
    pub closed spec fn current_theme(&self) -> T {
        self.current
    }

    /// No two themes share a name.
    pub open spec fn wf(&self) -> bool {
        names_distinct(self.entries())
    }

    /// A registry that holds one theme and uses a copy of it.
    pub fn new(name: String, theme: T) -> (r: ThemeRegistry<T>)
        ensures
            r.wf(),
            r.entries() == seq![(name@, theme)],
            cloned(theme, r.current_theme()),
    {
        let current = theme.clone();
        let mut themes: Vec<(String, T)> = Vec::new();
        themes.push((name, theme));
        let r = ThemeRegistry { current, themes };
        assert(r.entries() =~= seq![(name@, theme)]);
        r
    }

    /// The theme in use.
    pub fn current(&self) -> (r: &T)
        ensures
            *r == self.current_theme(),
    {
        &self.current
    }

    /// Uses a copy of the theme with the given name, if there is one.
    pub fn set_theme(&mut self, name: &str) -> (r: Result<(), DesktopError>)
        requires
            old(self).wf(),
        ensures
            final(self).wf(),
            final(self).entries() == old(self).entries(),
            r is Ok == has_name(old(self).entries(), name@),
            forall|k: int|
                0 <= k < old(self).entries().len() && #[trigger] old(self).entries()[k].0 == name@ ==> cloned(
                    old(self).entries()[k].1,
                    final(self).current_theme(),
                ),
            r is Err ==> {
                &&& r->Err_0 is ThemeNotFound
                &&& r->Err_0->ThemeNotFound_0@ == name@
                &&& final(self).current_theme() == old(self).current_theme()
            },
    {
        let ghost es = self.entries();
        let mut i: usize = 0;
        while i < self.themes.len()
            invariant
                i <= self.themes@.len(),
                es == self.entries(),
                es.len() == self.themes@.len(),
                es == old(self).entries(),
                names_distinct(es),
                self.current == old(self).current,
                forall|k: int| 0 <= k < i ==> #[trigger] es[k].0 != name@,
            decreases self.themes@.len() - i,
        {
            assert(es[i as int].0 == self.themes@[i as int].0@);
            if str_equal(self.themes[i].0.as_str(), name) {
                let c = self.themes[i].1.clone();
                self.current = c;
                proof {
                    assert forall|k: int| 0 <= k < es.len() && #[trigger] es[k].0 == name@ implies k == i by {
                        if k != i {
                            assert(es[k].0 != es[i as int].0);
                        }
                    }
                    assert(self.entries() =~= es);
                }
                return Ok(());
            }
            i += 1;
        }
        Err(DesktopError::ThemeNotFound(String::from_str(name)))
    }

    /// Adds a theme; one with the same name goes first.
    pub fn add_theme(&mut self, name: String, theme: T)
        requires
            old(self).wf(),
        ensures
            final(self).wf(),
            final(self).entries() == without_name(old(self).entries(), name@).push((name@, theme)),
            final(self).current_theme() == old(self).current_theme(),
    {
        let ghost es = self.entries();
        let ghost n = name@;
        let mut rest: Vec<(String, T)> = Vec::new();
        std::mem::swap(&mut rest, &mut self.themes);
        let total = rest.len();
        let ghost s = rest@;
        let mut kept: Vec<(String, T)> = Vec::new();
        let mut i: usize = 0;
        while rest.len() > 0
            invariant
                i + rest@.len() == s.len(),
                s.len() == total,
                rest@ == s.skip(i as int),
                es == s.map_values(|e: (String, T)| (e.0@, e.1)),
                kept@.map_values(|e: (String, T)| (e.0@, e.1)) == without_name(es.take(i as int), n),
                n == name@,
            decreases rest@.len(),
        {
            let e = rest.remove(0);
            proof {
                assert(e == s[i as int]);
                assert(es.take(i + 1).drop_last() =~= es.take(i as int));
                assert(es.take(i + 1).last() == es[i as int]);
                assert(s.skip(i + 1) =~= s.skip(i as int).drop_first());
            }
            if str_equal(e.0.as_str(), name.as_str()) {
                i += 1;
            } else {
                kept.push(e);
                proof {
                    assert(kept@.map_values(|e: (String, T)| (e.0@, e.1)) =~= without_name(
                        es.take(i as int),
                        n,
                    ).push(es[i as int]));
                }
                i += 1;
            }
        }
        assert(es.take(i as int) =~= es);
        proof {
            law_added_theme_is_chosen(es, n, theme);
        }
        kept.push((name, theme));
        self.themes = kept;
        assert(self.entries() =~= without_name(es, n).push((n, theme)));
    }

    /// The names of the themes, in order.
    pub fn list_themes(&self) -> (r: Vec<String>)
        ensures
            r@.map_values(|x: String| x@) == self.entries().map_values(|e: (Seq<char>, T)| e.0),
    {
        let ghost names = self.entries().map_values(|e: (Seq<char>, T)| e.0);
        let mut r: Vec<String> = Vec::new();
        let mut i: usize = 0;
        while i < self.themes.len()
            invariant
                i <= self.themes@.len(),
                names == self.entries().map_values(|e: (Seq<char>, T)| e.0),
                names.len() == self.themes@.len(),
                r@.len() == i,
                forall|k: int| 0 <= k < i ==> #[trigger] r@[k]@ == names[k],
            decreases self.themes@.len() - i,
        {
            let c = copy_string(&self.themes[i].0);
            assert(names[i as int] == self.themes@[i as int].0@);
            r.push(c);
            i += 1;
        }
        assert(r@.map_values(|x: String| x@) =~= names);
        r
    }
}

/// A theme just added is the one theme under its name, so choosing that
/// name next uses a copy of it; the names stay distinct.
pub proof fn law_added_theme_is_chosen<T>(es: Seq<(Seq<char>, T)>, name: Seq<char>, theme: T)
    requires
        names_distinct(es),
    ensures
        names_distinct(without_name(es, name).push((name, theme))),
        has_name(without_name(es, name).push((name, theme)), name),
        forall|k: int|
            0 <= k < without_name(es, name).push((name, theme)).len() && #[trigger] without_name(es, name).push(
                (name, theme),
            )[k].0 == name ==> without_name(es, name).push((name, theme))[k].1 == theme,
{
    lemma_without_name(es, name);
    let w = without_name(es, name);
    let f = w.push((name, theme));
    assert(f[w.len() as int].0 == name);
    assert forall|a: int, b: int| 0 <= a < f.len() && 0 <= b < f.len() && a != b implies #[trigger] f[a].0
        != #[trigger] f[b].0 by {
        if a < w.len() && b < w.len() {
            assert(f[a] == w[a] && f[b] == w[b]);
        } else if a < w.len() {
            assert(f[a] == w[a]);
        } else if b < w.len() {
            assert(f[b] == w[b]);
        }
    }
    assert forall|k: int| 0 <= k < f.len() && #[trigger] f[k].0 == name implies f[k].1 == theme by {
        if k < w.len() {
            assert(f[k] == w[k]);
        }
    }
}

} // verus!
