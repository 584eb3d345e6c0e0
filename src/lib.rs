pub mod generate;
pub mod grammar;
pub mod model;
pub mod naming;
pub mod parser;
pub mod text;

pub use generate::{
    generate_class, generate_enum, proto_to, proto_to_dart, proto_to_kotlin, proto_to_swift,
    proto_to_typescript, Target,
};
pub use model::{ProtoEnum, ProtoEnumValue, ProtoField, ProtoMessage};
pub use parser::ProtoParserCore;
pub mod laws;
