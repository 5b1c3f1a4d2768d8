//! The key/value codec: conversion between the engine's raw byte buffers and
//! the host runtime's exchangeable values. Keys and values are opaque byte
//! strings; a host value that is not a byte buffer is rejected, never
//! reinterpreted.

use vstd::prelude::*;

use crate::errors::KvError;

verus! {

/// An exchangeable host-runtime value, as far as this layer inspects one: a
/// boolean, an unsigned integer, a symbolic name, a byte buffer, or a
/// three-element tuple of further values.
pub enum HostTerm {
    Bool(bool),
    Int(u64),
    Name(Vec<u8>),
    Bin(Vec<u8>),
    Tuple3(Box<HostTerm>, Box<HostTerm>, Box<HostTerm>),
}

/// Extracts the raw bytes of a host byte buffer. Anything that is not a byte
/// buffer fails with `NotBinary`; the bytes of a buffer come through intact.
pub fn binary_to_vec(term: HostTerm) -> (r: Result<Vec<u8>, KvError>)
    ensures
        term matches HostTerm::Bin(b) ==> (r matches Ok(out) && out@ == b@),
        !(term is Bin) ==> (r matches Err(e) && e is NotBinary),
{
    match term {
        HostTerm::Bin(b) => Ok(b),
        _ => Err(KvError::NotBinary),
    }
}

/// Wraps raw bytes as a host byte buffer, preserving exact length and
/// content; no text encoding is applied.
pub fn vec_to_binary(data: Vec<u8>) -> (r: HostTerm)
    ensures
        r == HostTerm::Bin(data),
{
    HostTerm::Bin(data)
}

} // verus!
