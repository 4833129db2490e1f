//! A Java Virtual Machine core: class-file codec, instruction codec, constant pool,
//! class loading and the interpreter's operational rules.

pub mod bytes;
pub mod error;
pub mod instruction;
pub mod code;
pub mod java_error;
pub mod class_path;
pub mod constant_pool;
pub mod class_file;
pub mod class_loader;
pub mod ldc;
pub mod interpreter;
pub mod vm;
pub mod native_methods;
pub mod initialization;
pub mod unsafe_memory;
