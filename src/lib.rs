//! Verified core of a bridge that lets native energy/gradient drivers act as
//! engines of the geomeTRIC optimizer: the configuration tree and its
//! conversion into the host value model, the keyword arguments of a run, and
//! the decisions an engine takes around each gradient call.

pub mod config;
pub mod document;
pub mod engine;
pub mod kwargs;

pub use crate::config::{toml2py, toml2py_val, ConfigError, ConfigValue, HostDict, HostValue};
pub use crate::document::{config_from_toml, parse_config, tomlstr2py};
pub use crate::engine::{check_gradient, EngineError, EngineMixin};
pub use crate::kwargs::optimizer_kwargs;
