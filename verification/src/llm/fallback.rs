//! Falling back to a second provider when the first one is rate-limited.
//!
//! The primary's answer passes through untouched unless it is a rate limit and
//! a backup is configured: then the request goes once to the backup, with the
//! backup's model.
use vstd::prelude::*;

use crate::llm::provider::{ChatRequest, LlmProvider, ProviderCapabilities, ProviderError, opt_view};

verus! {

/// A backup provider and the model to use on it.
pub struct FallbackTarget<P> {
    pub provider: P,
    pub model: String,
}

/// A provider that falls back to a backup on a rate limit.
pub struct FallbackProvider<P> {
    pub primary: P,
    pub fallback: Option<FallbackTarget<P>>,
}

/// `after` is `before` pointed at another model, all else kept.
pub open spec fn retargeted(before: ChatRequest, after: ChatRequest, model: Seq<char>) -> bool {
    &&& after.messages == before.messages
    &&& after.tools == before.tools
    &&& after.max_tokens == before.max_tokens
    &&& after.temperature == before.temperature
    &&& after.top_p == before.top_p
    &&& after.response_format == before.response_format
    &&& after.stop_sequences == before.stop_sequences
    &&& after.provider_options == before.provider_options
    &&& opt_view(after.model_override) == Some(model)
}

/// A failure that a backup is asked about.
pub open spec fn falls_back(e: ProviderError) -> bool {
    e is RateLimited
}

/// What to do after the primary has answered.
pub enum AfterPrimary<R> {
    /// Hand the primary's answer to the caller.
    Return(Result<R, ProviderError>),
    /// Send this request to the backup and hand its answer to the caller.
    Backup(ChatRequest),
}

impl<P: LlmProvider> FallbackProvider<P> {
    /// A primary with an optional backup.
    pub fn new(primary: P, fallback: Option<FallbackTarget<P>>) -> (r: Self)
        ensures
            r.primary == primary,
            r.fallback == fallback,
    {
        FallbackProvider { primary, fallback }
    }

    /// Points a request at a model.
    pub fn retarget(request: ChatRequest, model: &str) -> (r: ChatRequest)
        ensures
            retargeted(request, r, model@),
    {
        let mut request = request;
        request.model_override = Some(model.to_owned());
        request
    }

    /// Decides what follows the primary's answer to `request`.
    pub fn after_primary<R>(&self, request: ChatRequest, outcome: Result<R, ProviderError>) -> (r: AfterPrimary<R>)
        ensures
            match r {
                AfterPrimary::Return(o) => o == outcome && (self.fallback is None || !(outcome is Err && falls_back(
                    outcome->Err_0,
                ))),
                AfterPrimary::Backup(b) => self.fallback is Some && outcome is Err && falls_back(outcome->Err_0)
                    && retargeted(request, b, self.fallback->0.model@),
            },
    {
        match &self.fallback {
            None => AfterPrimary::Return(outcome),
            Some(fb) => match outcome {
                Err(ProviderError::RateLimited { provider: _, retry_after_secs: _ }) => AfterPrimary::Backup(
                    Self::retarget(request, fb.model.as_str()),
                ),
                other => AfterPrimary::Return(other),
            },
        }
    }
}

impl<P: LlmProvider> LlmProvider for FallbackProvider<P> {
    open spec fn id_view(&self) -> Seq<char> {
        self.primary.id_view()
    }

    open spec fn model_view(&self) -> Seq<char> {
        self.primary.model_view()
    }

    open spec fn abilities(&self) -> ProviderCapabilities {
        self.primary.abilities()
    }

    fn provider_id(&self) -> (r: &str) {
        self.primary.provider_id()
    }

    fn model_id(&self) -> (r: &str) {
        self.primary.model_id()
    }

    fn capabilities(&self) -> (r: ProviderCapabilities) {
        self.primary.capabilities()
    }

    fn count_tokens(&self, request: &ChatRequest) -> (r: usize)
        ensures
            call_ensures(P::count_tokens, (&self.primary, request), r),
    {
        self.primary.count_tokens(request)
    }
}

/// A request that was sent to the backup names the backup's model, whatever
/// model it named before.
pub proof fn law_backup_uses_its_own_model(before: ChatRequest, after: ChatRequest, model: Seq<char>, other: Seq<char>)
    requires
        retargeted(before, after, model),
    ensures
        after.model_for(other) == model,
{
}

} // verus!
