pub mod vars;
pub mod resolve;
pub mod resolve_extra;
pub mod resolve_fill;
pub mod frame;
pub mod leaf;
pub mod expand;
pub mod builder;
pub mod analyze;
pub mod imports;

pub use analyze::SemanticAnalyzer;
pub use builder::IrBuilder;
pub use resolve::PropertyResolver;
pub use vars::VariableResolver;
