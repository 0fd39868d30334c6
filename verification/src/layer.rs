//! The Engine.IO layer as a value: a handler and the configuration it
//! is to run with. A middleware stack turns it into a service.

use crate::config::EngineIoConfig;
use crate::handler::EngineIoHandler;
use vstd::prelude::*;

verus! {

/// A handler together with an Engine.IO configuration.
pub struct EngineIoLayer<H: EngineIoHandler> {
    config: EngineIoConfig,
    handler: H,
}

impl<H: EngineIoHandler> EngineIoLayer<H> {
    /// The configuration.
    pub closed spec fn spec_config(&self) -> EngineIoConfig {
        self.config
    }

    /// The handler.
    pub closed spec fn spec_handler(&self) -> H {
        self.handler
    }

    /// A layer with the given handler and the default configuration.
    pub fn new(handler: H) -> (layer: Self)
        ensures
            layer.spec_handler() == handler,
            layer.spec_config().is_default(),
    {
        EngineIoLayer { config: EngineIoConfig::default(), handler }
    }

    /// A layer with the given handler and configuration.
    pub fn from_config(handler: H, config: EngineIoConfig) -> (layer: Self)
        ensures
            layer.spec_handler() == handler,
            layer.spec_config() == config,
    {
        EngineIoLayer { config, handler }
    }

    /// The configuration.
    pub fn config(&self) -> (config: &EngineIoConfig)
        ensures
            *config == self.spec_config(),
    {
        &self.config
    }

    /// The handler.
    pub fn handler(&self) -> (handler: &H)
        ensures
            *handler == self.spec_handler(),
    {
        &self.handler
    }

    /// Takes the layer apart.
    pub fn into_parts(self) -> (parts: (H, EngineIoConfig))
        ensures
            parts.0 == self.spec_handler(),
            parts.1 == self.spec_config(),
    {
        (self.handler, self.config)
    }
}

} // verus!
