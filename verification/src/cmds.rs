//! Typed-layer commands: assertion and declarations rendered through the
//! writer protocol.

pub mod assertion;
pub mod declare_const;
pub mod declare_datatype;
pub mod define_fun;

pub use assertion::Assert;
pub use declare_const::DeclareConst;
pub use declare_datatype::DeclareDatatype;
pub use define_fun::DefineFun;
