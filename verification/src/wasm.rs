//! Errors of WebAssembly applications, and the fuel cost of their instructions.
use vstd::prelude::*;

verus! {

/// Errors that can occur when executing a user application in a WebAssembly module.
#[derive(Debug)]
pub enum WasmExecutionError {
    /// Failed to load contract Wasm module, with the reason.
    LoadContractModule(String),
    /// Failed to load service Wasm module, with the reason.
    LoadServiceModule(String),
    /// Failed to create and configure the Wasmtime runtime, with the reason.
    CreateWasmtimeEngine(String),
    /// Failed to execute Wasm module (Wasmer), with the reason.
    ExecuteModuleInWasmer(String),
    /// Failed to execute Wasm module (Wasmtime), with the reason.
    ExecuteModuleInWasmtime(String),
    /// Attempt to use a system API to write to read-only storage.
    WriteAttemptToReadOnlyStorage,
    /// Runtime failed to respond to application.
    MissingRuntimeResponse,
    /// Execution of guest future was aborted.
    Aborted,
    /// The guest asked for a promise that is not registered.
    UnknownPromise,
    /// The guest asked for a promise of another kind than the one registered.
    IncorrectPromise,
}

/// The kinds of WebAssembly instructions that metering tells apart.
#[derive(Clone, Copy, Debug, PartialEq, Eq, Structural)]
pub enum Operator {
    Nop,
    Drop,
    Block,
    Loop,
    Unreachable,
    Else,
    End,
    /// Any other instruction.
    Other,
}

/// Calculates the fuel cost of a WebAssembly instruction: structural instructions and
/// `nop`/`drop`/`unreachable` are free, every other instruction costs one unit.
pub fn operation_cost(operator: &Operator) -> (r: u64)
    ensures
        r == if *operator == Operator::Other { 1u64 } else { 0u64 },
{
    match operator {
        Operator::Nop | Operator::Drop | Operator::Block | Operator::Loop | Operator::Unreachable
        | Operator::Else | Operator::End => 0,
        _ => 1,
    }
}

} // verus!
