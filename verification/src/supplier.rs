//! The closed set of upstream provider targets and their resolution.
//!
//! A target is one of three variants: two chat-completions providers
//! reached with a bearer credential, and the tiered content-generation
//! provider that carries a standard and a pro endpoint/model pair chosen per
//! call by the rate gate. Resolution here is pure: the tiered choice takes
//! the rate gate's verdict as an argument, since the verdict itself comes
//! from the external counter store.

use vstd::prelude::*;
use crate::models::clone_string;

verus! {

/// One upstream provider target, immutable once constructed.
pub enum ApiSupplier {
    OpenAi { url: String, model: String, api_key: String },
    Claude { url: String, model: String, api_key: String },
    Gemini {
        url: String,
        model: String,
        api_key: String,
        pro_url: String,
        pro_model: String,
        rate_limit_per_minute: u16,
    },
}

impl ApiSupplier {
    /// Whether this is the tiered content-generation provider.
    pub open spec fn is_gemini(self) -> bool {
        self is Gemini
    }

    /// The endpoint resolution resolves to, given the rate gate's verdict.
    pub open spec fn spec_url(self, pro_allowed: bool) -> Seq<char> {
        match self {
            ApiSupplier::OpenAi { url, .. } => url@,
            ApiSupplier::Claude { url, .. } => url@,
            ApiSupplier::Gemini { url, pro_url, .. } => if pro_allowed {
                pro_url@
            } else {
                url@
            },
        }
    }

    /// The model resolution resolves to, given the rate gate's verdict.
    pub open spec fn spec_model(self, pro_allowed: bool) -> Seq<char> {
        match self {
            ApiSupplier::OpenAi { model, .. } => model@,
            ApiSupplier::Claude { model, .. } => model@,
            ApiSupplier::Gemini { model, pro_model, .. } => if pro_allowed {
                pro_model@
            } else {
                model@
            },
        }
    }

    /// The bearer credential of the target.
    pub open spec fn spec_api_key(self) -> Seq<char> {
        match self {
            ApiSupplier::OpenAi { api_key, .. } => api_key@,
            ApiSupplier::Claude { api_key, .. } => api_key@,
            ApiSupplier::Gemini { api_key, .. } => api_key@,
        }
    }

    /// The per-minute pro-tier budget; zero for the non-tiered providers,
    /// which never consult the rate counter.
    pub open spec fn spec_budget(self) -> int {
        match self {
            ApiSupplier::Gemini { rate_limit_per_minute, .. } => rate_limit_per_minute as int,
            _ => 0,
        }
    }

    pub fn needs_rate_check(&self) -> (r: bool)
        ensures
            r == self.is_gemini(),
    {
        match self {
            ApiSupplier::Gemini { .. } => true,
            _ => false,
        }
    }

    pub fn rate_budget(&self) -> (r: u16)
        ensures
            r as int == self.spec_budget(),
    {
        match self {
            ApiSupplier::Gemini { rate_limit_per_minute, .. } => *rate_limit_per_minute,
            _ => 0,
        }
    }

    /// The endpoint to call. For the tiered provider the pro endpoint is
    /// taken exactly when the rate gate allowed the call; the other providers
    /// ignore the verdict.
    pub fn get_url(&self, pro_allowed: bool) -> (r: String)
        ensures
            r@ == self.spec_url(pro_allowed),
    {
        match self {
            ApiSupplier::OpenAi { url, .. } => clone_string(url),
            ApiSupplier::Claude { url, .. } => clone_string(url),
            ApiSupplier::Gemini { url, pro_url, .. } => if pro_allowed {
                clone_string(pro_url)
            } else {
                clone_string(url)
            },
        }
    }

    /// The model to name in the payload, chosen like the endpoint.
    pub fn get_model(&self, pro_allowed: bool) -> (r: String)
        ensures
            r@ == self.spec_model(pro_allowed),
    {
        match self {
            ApiSupplier::OpenAi { model, .. } => clone_string(model),
            ApiSupplier::Claude { model, .. } => clone_string(model),
            ApiSupplier::Gemini { model, pro_model, .. } => if pro_allowed {
                clone_string(pro_model)
            } else {
                clone_string(model)
            },
        }
    }

    /// Model and endpoint of the tiered provider for one rate-gate verdict. Only
    /// the tiered provider has a tier to choose, so the caller must hold one.
    pub fn get_gemini_model_url(&self, pro_allowed: bool) -> (r: (String, String))
        requires
            self.is_gemini(),
        ensures
            r.0@ == self.spec_model(pro_allowed),
            r.1@ == self.spec_url(pro_allowed),
    {
        (self.get_model(pro_allowed), self.get_url(pro_allowed))
    }

    /// The bearer credential of the target.
    pub fn get_api_key(&self) -> (r: String)
        ensures
            r@ == self.spec_api_key(),
    {
        match self {
            ApiSupplier::OpenAi { api_key, .. } => clone_string(api_key),
            ApiSupplier::Claude { api_key, .. } => clone_string(api_key),
            ApiSupplier::Gemini { api_key, .. } => clone_string(api_key),
        }
    }
}

/// Resolving a non-tiered target twice, with no state change in between
/// and whichever answer the rate check gives each time, yields the same
/// endpoint, model and credential both times.
pub proof fn lemma_resolve_stable(s: ApiSupplier, a1: bool, a2: bool)
    requires
        !s.is_gemini(),
    ensures
        s.spec_url(a1) == s.spec_url(a2),
        s.spec_model(a1) == s.spec_model(a2),
        s.spec_api_key() == s.spec_api_key(),
{
}

} // verus!
