//! Routing decisions: given the best local and the best cloud choice for a
//! request (when there are any) and how their latencies compare, where the
//! request goes.
use vstd::prelude::*;
use crate::inference::types::{ModelId, LocalBackend, CloudProvider, RoutingDecision, PrivacyLevel, InferencePreference};

verus! {

/// The rank of a privacy level, from public (0) to confidential (3).
pub open spec fn privacy_rank(p: PrivacyLevel) -> u8 {
    match p {
        PrivacyLevel::Public => 0,
        PrivacyLevel::Internal => 1,
        PrivacyLevel::Sensitive => 2,
        PrivacyLevel::Confidential => 3,
    }
}

fn rank_of(p: PrivacyLevel) -> (r: u8)
    ensures
        r == privacy_rank(p),
{
    match p {
        PrivacyLevel::Public => 0,
        PrivacyLevel::Internal => 1,
        PrivacyLevel::Sensitive => 2,
        PrivacyLevel::Confidential => 3,
    }
}

/// The decision for a local model on its back end.
pub open spec fn local_route(backend: LocalBackend, model_id: ModelId) -> RoutingDecision {
    match backend {
        LocalBackend::Candle => RoutingDecision::LocalCandle { model_id },
        LocalBackend::OnnxRuntime => RoutingDecision::LocalOnnx { model_id },
        LocalBackend::Tract => RoutingDecision::LocalTract { model_id },
    }
}

pub fn local_decision(backend: LocalBackend, model_id: ModelId) -> (r: RoutingDecision)
    ensures
        r == local_route(backend, model_id),
{
    match backend {
        LocalBackend::Candle => RoutingDecision::LocalCandle { model_id },
        LocalBackend::OnnxRuntime => RoutingDecision::LocalOnnx { model_id },
        LocalBackend::Tract => RoutingDecision::LocalTract { model_id },
    }
}

/// The placeholder decision used when there is no choice at all: the cloud
/// model `fallback-model` of OpenAI.
pub open spec fn is_placeholder(r: RoutingDecision) -> bool {
    r matches RoutingDecision::Cloud { provider, model_id } && provider == CloudProvider::OpenAI && model_id.0@
        == "fallback-model"@
}

/// `r` is the decision `d`, or the placeholder when `d` is none.
pub open spec fn decided(d: Option<RoutingDecision>, r: RoutingDecision) -> bool {
    match d {
        Some(x) => r == x,
        None => is_placeholder(r),
    }
}

/// When the preferred path has no choice: the local choice backed by the
/// cloud one when both exist, else whichever exists, else none (the
/// placeholder).
pub open spec fn fallback_route(local: Option<RoutingDecision>, cloud: Option<RoutingDecision>) -> Option<RoutingDecision> {
    match (local, cloud) {
        (Some(l), Some(c)) => Some(RoutingDecision::Fallback { primary: Box::new(l), fallback: Box::new(c) }),
        (Some(l), None) => Some(l),
        (None, Some(c)) => Some(c),
        (None, None) => None,
    }
}

/// Where a request goes. Confidential data stays local when it can; the
/// preference otherwise decides: local only, cloud only, the faster of the
/// two, the cloud first for accuracy, or the local choice first (privacy
/// and automatic); with no choice on the preferred path, the fallback.
pub open spec fn route_for(
    privacy: PrivacyLevel,
    preference: InferencePreference,
    local: Option<RoutingDecision>,
    cloud: Option<RoutingDecision>,
    local_not_slower: bool,
) -> Option<RoutingDecision> {
    if privacy_rank(privacy) >= 3 {
        match local {
            Some(l) => Some(l),
            None => fallback_route(local, cloud),
        }
    } else {
        match preference {
            InferencePreference::LocalOnly => match local {
                Some(l) => Some(l),
                None => fallback_route(local, cloud),
            },
            InferencePreference::CloudOnly => match cloud {
                Some(c) => Some(c),
                None => fallback_route(local, cloud),
            },
            InferencePreference::LatencyFirst => match (local, cloud) {
                (Some(l), Some(c)) => if local_not_slower {
                    Some(l)
                } else {
                    Some(c)
                },
                (Some(l), None) => Some(l),
                (None, Some(c)) => Some(c),
                (None, None) => None,
            },
            InferencePreference::AccuracyFirst => match (cloud, local) {
                (Some(c), _) => Some(c),
                (None, Some(l)) => Some(l),
                (None, None) => None,
            },
            _ => match (local, cloud) {
                (Some(l), _) => Some(l),
                (None, Some(c)) => Some(c),
                (None, None) => None,
            },
        }
    }
}

fn copy_choice(d: &Option<RoutingDecision>) -> (r: Option<RoutingDecision>)
    ensures
        r == *d,
{
    match d {
        Some(x) => Some(x.clone()),
        None => None,
    }
}

/// The fallback decision.
pub fn fallback_decision(local: Option<RoutingDecision>, cloud: Option<RoutingDecision>) -> (r: RoutingDecision)
    ensures
        decided(fallback_route(local, cloud), r),
{
    match (local, cloud) {
        (Some(l), Some(c)) => RoutingDecision::Fallback { primary: Box::new(l), fallback: Box::new(c) },
        (Some(l), None) => l,
        (None, Some(c)) => c,
        (None, None) => RoutingDecision::Cloud {
            provider: CloudProvider::OpenAI,
            model_id: ModelId(String::from_str("fallback-model")),
        },
    }
}

/// The routing decision for a request.
pub fn route_decision(
    privacy: PrivacyLevel,
    preference: InferencePreference,
    local: Option<RoutingDecision>,
    cloud: Option<RoutingDecision>,
    local_not_slower: bool,
) -> (r: RoutingDecision)
    ensures
        decided(route_for(privacy, preference, local, cloud, local_not_slower), r),
{
    if rank_of(privacy) >= 3 {
        return match copy_choice(&local) {
            Some(l) => l,
            None => fallback_decision(local, cloud),
        };
    }
    match preference {
        InferencePreference::LocalOnly => match copy_choice(&local) {
            Some(l) => l,
            None => fallback_decision(local, cloud),
        },
        InferencePreference::CloudOnly => match copy_choice(&cloud) {
            Some(c) => c,
            None => fallback_decision(local, cloud),
        },
        InferencePreference::LatencyFirst => match (local, cloud) {
            (Some(l), Some(c)) => if local_not_slower {
                l
            } else {
                c
            },
            (Some(l), None) => l,
            (None, Some(c)) => c,
            (None, None) => fallback_decision(None, None),
        },
        InferencePreference::AccuracyFirst => match (cloud, local) {
            (Some(c), _) => c,
            (None, Some(l)) => l,
            (None, None) => fallback_decision(None, None),
        },
        _ => match (local, cloud) {
            (Some(l), _) => l,
            (None, Some(c)) => c,
            (None, None) => fallback_decision(None, None),
        },
    }
}

/// The position of the first smallest key.
pub fn first_min(keys: &Vec<u32>) -> (r: Option<usize>)
    ensures
        keys@.len() == 0 <==> r is None,
        r matches Some(i) ==> {
            &&& i < keys@.len()
            &&& forall|j: int| 0 <= j < keys@.len() ==> keys@[i as int] <= #[trigger] keys@[j]
            &&& forall|j: int| 0 <= j < i ==> keys@[i as int] < #[trigger] keys@[j]
        },
{
    if keys.len() == 0 {
        return None;
    }
    let mut best: usize = 0;
    let mut k: usize = 1;
    while k < keys.len()
        invariant
            1 <= k <= keys@.len(),
            best < k,
            forall|j: int| 0 <= j < k ==> keys@[best as int] <= #[trigger] keys@[j],
            forall|j: int| 0 <= j < best ==> keys@[best as int] < #[trigger] keys@[j],
        decreases keys@.len() - k,
    {
        if keys[k] < keys[best] {
            best = k;
        }
        k += 1;
    }
    Some(best)
}

/// Confidential data goes to the local choice whenever there is one, whatever
/// the preference; so does sensitive data under the privacy preference, and
/// any request in automatic mode.
pub proof fn law_confidential_stays_local(
    preference: InferencePreference,
    l: RoutingDecision,
    cloud: Option<RoutingDecision>,
    local_not_slower: bool,
)
    ensures
        route_for(PrivacyLevel::Confidential, preference, Some(l), cloud, local_not_slower) == Some(l),
        route_for(PrivacyLevel::Sensitive, InferencePreference::PrivacyFirst, Some(l), cloud, local_not_slower) == Some(l),
        route_for(PrivacyLevel::Public, InferencePreference::Auto, Some(l), cloud, local_not_slower) == Some(l),
{
}

/// How a request is routed, by what is on offer. Confidential data goes to
/// a local model whenever one exists, whatever the preference. Otherwise:
/// accuracy first takes the cloud choice when there is one and the local
/// one only without it; cloud only takes the cloud choice and local only the
/// local one when they exist; latency first takes the local choice exactly
/// when it is not slower; automatic and privacy-first routing take the local
/// choice when there is one and the cloud one only without it. Where the
/// preferred side offers nothing, the other side's choice is taken, and
/// with nothing on offer no choice is made.
pub proof fn law_route_by_preference(
    privacy: PrivacyLevel,
    local: Option<RoutingDecision>,
    cloud: Option<RoutingDecision>,
    local_not_slower: bool,
)
    ensures
        privacy == PrivacyLevel::Confidential && local is Some ==> forall|pref: InferencePreference|
            #[trigger] route_for(privacy, pref, local, cloud, local_not_slower) == local,
        privacy != PrivacyLevel::Confidential && cloud is Some ==> route_for(
            privacy,
            InferencePreference::AccuracyFirst,
            local,
            cloud,
            local_not_slower,
        ) == cloud,
        privacy != PrivacyLevel::Confidential && cloud is None ==> route_for(
            privacy,
            InferencePreference::AccuracyFirst,
            local,
            cloud,
            local_not_slower,
        ) == local,
        privacy != PrivacyLevel::Confidential && cloud is Some ==> route_for(
            privacy,
            InferencePreference::CloudOnly,
            local,
            cloud,
            local_not_slower,
        ) == cloud,
        privacy != PrivacyLevel::Confidential && local is Some ==> route_for(
            privacy,
            InferencePreference::LocalOnly,
            local,
            cloud,
            local_not_slower,
        ) == local,
        privacy != PrivacyLevel::Confidential && local is Some && cloud is Some ==> route_for(
            privacy,
            InferencePreference::LatencyFirst,
            local,
            cloud,
            local_not_slower,
        ) == if local_not_slower {
            local
        } else {
            cloud
        },
        privacy != PrivacyLevel::Confidential && (local is None || cloud is None) ==> route_for(
            privacy,
            InferencePreference::LatencyFirst,
            local,
            cloud,
            local_not_slower,
        ) == if local is Some {
            local
        } else {
            cloud
        },
        privacy != PrivacyLevel::Confidential ==> route_for(
            privacy,
            InferencePreference::Auto,
            local,
            cloud,
            local_not_slower,
        ) == if local is Some {
            local
        } else {
            cloud
        },
        privacy != PrivacyLevel::Confidential ==> route_for(
            privacy,
            InferencePreference::PrivacyFirst,
            local,
            cloud,
            local_not_slower,
        ) == if local is Some {
            local
        } else {
            cloud
        },
        local is None && cloud is None ==> forall|pref: InferencePreference|
            #[trigger] route_for(privacy, pref, local, cloud, local_not_slower) is None,
        privacy == PrivacyLevel::Confidential && local is None ==> forall|pref: InferencePreference|
            #[trigger] route_for(privacy, pref, local, cloud, local_not_slower) == cloud,
        local is None ==> route_for(privacy, InferencePreference::LocalOnly, local, cloud, local_not_slower) == cloud,
        privacy != PrivacyLevel::Confidential && cloud is None ==> route_for(
            privacy,
            InferencePreference::CloudOnly,
            local,
            cloud,
            local_not_slower,
        ) == local,
{
}

} // verus!
