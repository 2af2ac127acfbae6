//! What to build, in which order and with which arguments.

pub mod files;
pub mod order;
pub mod plan;

pub use files::{computed_values, dockerfile_path, service_of, sort_files};
pub use order::{build_order, BuildError};
pub use plan::{
    build, build_env, build_title, compose_files, declared_args, docker_build_args, image_prefix,
    merged_value, plan, secret_env, secret_names, BuildPlan, ServicePlan,
};
