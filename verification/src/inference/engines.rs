//! Which registered engine serves a routing decision.
use vstd::prelude::*;
use crate::inference::types::{CloudProvider, InferenceError, InferenceProvider, RoutingDecision};

verus! {

/// What the manager knows of a registered engine: its name, its provider
/// and whether it can run now.
pub struct EngineSlot {
    pub name: String,
    pub provider: InferenceProvider,
    pub available: bool,
}

/// The first engine from position `i` on with the provider that is
/// available.
pub open spec fn first_available(engines: Seq<EngineSlot>, p: InferenceProvider, i: int) -> Option<int>
    decreases engines.len() - i,
{
    if i < 0 || i >= engines.len() {
        None
    } else if engines[i].provider == p && engines[i].available {
        Some(i)
    } else {
        first_available(engines, p, i + 1)
    }
}

/// The engine provider that serves a cloud provider, for those that have
/// one.
pub open spec fn cloud_engine_provider(p: CloudProvider) -> Option<InferenceProvider> {
    match p {
        CloudProvider::OpenAI => Some(InferenceProvider::OpenAI),
        CloudProvider::Anthropic => Some(InferenceProvider::Anthropic),
        CloudProvider::Google => Some(InferenceProvider::Google),
        _ => None,
    }
}

/// The engine that serves a decision, as a position among `engines`, or
/// the model whose engine is missing: a local decision takes the first
/// available engine of its backend, a cloud one the first of its provider
/// (none for providers without engines), and a fallback its primary
/// decision's engine, else its fallback's.
pub open spec fn engine_choice(d: RoutingDecision, engines: Seq<EngineSlot>) -> Result<int, Seq<char>>
    decreases d,
{
    match d {
        RoutingDecision::LocalCandle { model_id } => match first_available(engines, InferenceProvider::Candle, 0) {
            Some(i) => Ok(i),
            None => Err(model_id.0@),
        },
        RoutingDecision::LocalOnnx { model_id } => match first_available(engines, InferenceProvider::OnnxRuntime, 0) {
            Some(i) => Ok(i),
            None => Err(model_id.0@),
        },
        RoutingDecision::LocalTract { model_id } => match first_available(engines, InferenceProvider::Tract, 0) {
            Some(i) => Ok(i),
            None => Err(model_id.0@),
        },
        RoutingDecision::Cloud { provider, model_id } => match cloud_engine_provider(provider) {
            Some(p) => match first_available(engines, p, 0) {
                Some(i) => Ok(i),
                None => Err(model_id.0@),
            },
            None => Err(model_id.0@),
        },
        RoutingDecision::Fallback { primary, fallback } => match engine_choice(*primary, engines) {
            Ok(i) => Ok(i),
            Err(_) => engine_choice(*fallback, engines),
        },
    }
}

fn find_available(engines: &Vec<EngineSlot>, p: InferenceProvider) -> (r: Option<usize>)
    ensures
        match r {
            Some(i) => i < engines@.len() && first_available(engines@, p, 0) == Some(i as int),
            None => first_available(engines@, p, 0) is None,
        },
{
    let mut i: usize = 0;
    while i < engines.len()
        invariant
            i <= engines@.len(),
            first_available(engines@, p, 0) == first_available(engines@, p, i as int),
        decreases engines@.len() - i,
    {
        if engines[i].provider == p && engines[i].available {
            return Some(i);
        }
        i += 1;
    }
    None
}

fn slot_or_missing(engines: &Vec<EngineSlot>, found: Option<usize>, model: &String) -> (r: Result<String, InferenceError>)
    requires
        found matches Some(i) ==> i < engines@.len(),
    ensures
        match found {
            Some(i) => r matches Ok(s) && s@ == engines@[i as int].name@,
            None => r matches Err(InferenceError::ModelNotFound(s)) && s@ == model@,
        },
{
    match found {
        Some(i) => Ok(engines[i].name.clone()),
        None => Err(InferenceError::ModelNotFound(model.clone())),
    }
}

/// The name of the engine that serves the decision (see
/// `engine_choice`), or `ModelNotFound` with the model's id.
pub fn engine_for_decision(decision: &RoutingDecision, engines: &Vec<EngineSlot>) -> (r: Result<String, InferenceError>)
    ensures
        match engine_choice(*decision, engines@) {
            Ok(i) => r matches Ok(s) && s@ == engines@[i].name@,
            Err(m) => r matches Err(InferenceError::ModelNotFound(s)) && s@ == m,
        },
    decreases decision,
{
    match decision {
        RoutingDecision::LocalCandle { model_id } => {
            slot_or_missing(engines, find_available(engines, InferenceProvider::Candle), &model_id.0)
        },
        RoutingDecision::LocalOnnx { model_id } => {
            slot_or_missing(engines, find_available(engines, InferenceProvider::OnnxRuntime), &model_id.0)
        },
        RoutingDecision::LocalTract { model_id } => {
            slot_or_missing(engines, find_available(engines, InferenceProvider::Tract), &model_id.0)
        },
        RoutingDecision::Cloud { provider, model_id } => {
            let p = match provider {
                CloudProvider::OpenAI => InferenceProvider::OpenAI,
                CloudProvider::Anthropic => InferenceProvider::Anthropic,
                CloudProvider::Google => InferenceProvider::Google,
                _ => {
                    return Err(InferenceError::ModelNotFound(model_id.0.clone()));
                },
            };
            slot_or_missing(engines, find_available(engines, p), &model_id.0)
        },
        RoutingDecision::Fallback { primary, fallback } => {
            match engine_for_decision(primary, engines) {
                Ok(name) => Ok(name),
                Err(_) => engine_for_decision(fallback, engines),
            }
        },
    }
}

/// The engine found for a provider from position `i` on is the first
/// available engine of that provider at or after `i`; none is found exactly
/// when no engine there is both of that provider and available.
pub proof fn law_first_available(engines: Seq<EngineSlot>, p: InferenceProvider, i: int)
    requires
        0 <= i,
    ensures
        first_available(engines, p, i) matches Some(k) ==> {
            &&& i <= k < engines.len()
            &&& engines[k].provider == p && engines[k].available
            &&& forall|j: int| i <= j < k ==> !(#[trigger] engines[j].provider == p && engines[j].available)
        },
        first_available(engines, p, i) is None ==> forall|j: int|
            i <= j < engines.len() ==> !(#[trigger] engines[j].provider == p && engines[j].available),
    decreases engines.len() - i,
{
    if i < engines.len() && !(engines[i].provider == p && engines[i].available) {
        law_first_available(engines, p, i + 1);
    }
}

} // verus!
