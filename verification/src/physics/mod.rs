//! The part of rigid-body integration that is decided without arithmetic:
//! which components a set of locked axes lets through.

pub mod helpers;
