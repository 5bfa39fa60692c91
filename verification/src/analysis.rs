//! Function metadata handed from analysis to code generation.
use vstd::prelude::*;

verus! {

/// Recovered type of a value.
#[derive(Debug)]
pub enum TypeInfo {
    Void,
    Integer { signed: bool, size: u32 },
    Pointer { pointee: Box<TypeInfo> },
    Unknown,
}

/// One parameter of a function.
#[derive(Debug)]
pub struct ParameterInfo {
    pub name: String,
    pub type_info: TypeInfo,
    pub register: Option<u8>,
    pub stack_offset: i32,
}

/// One local variable of a function.
#[derive(Debug)]
pub struct VariableInfo {
    pub name: String,
    pub type_info: TypeInfo,
    pub stack_offset: i32,
    pub scope_start: u32,
    pub scope_end: u32,
}

/// Address range of one basic block.
#[derive(Debug)]
pub struct BasicBlockInfo {
    pub start_address: u32,
    pub end_address: u32,
}

/// Everything the code generator is told about one function.
#[derive(Debug)]
pub struct FunctionMetadata {
    pub address: u32,
    pub name: String,
    pub size: u32,
    pub calling_convention: String,
    pub parameters: Vec<ParameterInfo>,
    pub return_type: Option<TypeInfo>,
    pub local_variables: Vec<VariableInfo>,
    pub basic_blocks: Vec<BasicBlockInfo>,
}

/// A function found by discovery (symbol map or linear sweep).
#[derive(Debug)]
pub struct FunctionInfo {
    pub address: u32,
    pub name: String,
    pub size: u32,
    pub calling_convention: String,
    pub parameters: Vec<ParameterInfo>,
    pub return_type: Option<TypeInfo>,
    pub local_variables: Vec<VariableInfo>,
    pub basic_blocks: Vec<BasicBlockInfo>,
}


/// Functions found by a discovery pass over a program.
#[derive(Debug)]
pub struct GhidraAnalysis {
    pub functions: Vec<FunctionInfo>,
}

} // verus!
