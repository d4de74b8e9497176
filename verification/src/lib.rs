pub mod encoder;
pub mod error;
pub mod types;

pub use encoder::FunctionEntry;
pub use error::AbiError;
pub use types::EthereumTypes;
