//! A register-based virtual machine core: the append-only binary Merkle
//! tree, the layered key/value storage, the reversible state diff, the
//! metadata oracle and the memory-checked cryptographic instructions.
pub mod hash;
pub mod merkle;
pub mod merkle_laws;
pub mod contract;
pub mod storage;
pub mod diff;
pub mod registers;
pub mod metadata;
pub mod gtf;
pub mod memory;
pub mod crypto;
