use vstd::prelude::*;
use crate::option::overwrite_option_from_option;
use vstd::string::StringExecFns;

verus! {

/// The backend's own host, used when no layer names one.
pub const DEFAULT_HOST: &'static str = "http://localhost:11434";

/// One layer of model settings (persisted configuration, the template's model
/// block, or command-line flags); an unset field leaves the choice to lower layers.
#[derive(Clone, Debug, PartialEq, Eq)]
pub struct ModelSettings {
    pub model: Option<String>,
    pub host: Option<String>,
    pub top_k: Option<u32>,
    pub max_tokens: Option<u32>,
    pub context_limit: Option<usize>,
}

/// The value of the higher layer when it is set, else that of the lower one.
pub open spec fn prefer<T>(high: Option<T>, low: Option<T>) -> Option<T> {
    if high is Some {
        high
    } else {
        low
    }
}

pub open spec fn layered(high: ModelSettings, low: ModelSettings) -> ModelSettings {
    ModelSettings {
        model: prefer(high.model, low.model),
        host: prefer(high.host, low.host),
        top_k: prefer(high.top_k, low.top_k),
        max_tokens: prefer(high.max_tokens, low.max_tokens),
        context_limit: prefer(high.context_limit, low.context_limit),
    }
}

impl ModelSettings {
    /// Lays `other` over these settings: each field that `other` sets wins.
    pub fn update_from(&mut self, other: &ModelSettings)
        ensures
            *final(self) == layered(*other, *old(self)),
    {
        overwrite_option_from_option(&mut self.model, &other.model);
        overwrite_option_from_option(&mut self.host, &other.host);
        overwrite_option_from_option(&mut self.top_k, &other.top_k);
        overwrite_option_from_option(&mut self.max_tokens, &other.max_tokens);
        overwrite_option_from_option(&mut self.context_limit, &other.context_limit);
    }

    /// The host to send requests to: the one set, else the backend's default.
    pub fn host_or_default(&self) -> (r: String)
        ensures
            r@ == match self.host {
                Some(h) => h@,
                None => DEFAULT_HOST@,
            },
    {
        match &self.host {
            Some(h) => h.clone(),
            None => String::from_str(DEFAULT_HOST),
        }
    }
}

/// Folds the layers in their fixed order: flags over the template's model block
/// over the persisted configuration.
pub fn resolve_model_settings(
    config: &ModelSettings,
    template: &ModelSettings,
    cli: &ModelSettings,
) -> (r: ModelSettings)
    ensures
        r == layered(*cli, layered(*template, *config)),
{
    let mut r = ModelSettings {
        model: config.model.clone(),
        host: config.host.clone(),
        top_k: config.top_k,
        max_tokens: config.max_tokens,
        context_limit: config.context_limit,
    };
    r.update_from(template);
    r.update_from(cli);
    r
}

} // verus!
