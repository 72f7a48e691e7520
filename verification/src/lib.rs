//! Launch-time support for Cloud Native Buildpacks: API version negotiation,
//! the launch environment and the decoding of exec.d output.

pub mod api;
pub mod env;
pub mod env_file;
pub mod exec_d;
pub mod path_list;
pub mod text;
