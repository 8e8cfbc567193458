//! A gateway core that bridges HTTP requests onto RPC backends described
//! only by runtime schema descriptors: a dynamic client per backend, a
//! hot-swappable registry of shared client handles, translators between
//! HTTP queries/headers and call arguments/metadata, and the per-request
//! state machine that composes them into one HTTP response.

pub mod client;
pub mod handler;
pub mod metadata;
pub mod query;
pub mod registry;
pub mod render;
pub mod schema;
pub mod status;
pub mod strmap;
mod text;

pub use client::CallOutcome;
pub use client::CallPlan;
pub use client::DynClient;
pub use client::MethodSchema;
pub use handler::AppEntity;
pub use handler::HandleStep;
pub use handler::HttpResponse;
pub use metadata::MetadataAnalysis;
pub use metadata::MetadataAnalysisDefaultImpl;
pub use query::QueryAnalysis;
pub use query::QueryAnalysisDefaultImpl;
pub use registry::DynMap;
pub use registry::DynMapDefault;
pub use registry::SharedRegistry;
pub use render::render_error;
pub use render::render_object;
pub use schema::CallKind;
pub use schema::DynValue;
pub use schema::FieldKind;
pub use schema::FieldSchema;
pub use status::CallFailure;
pub use strmap::StrMap;
