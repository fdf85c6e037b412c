//! Byte-string helpers for a small runtime shim: terminated strings,
//! a single-space tokenizer, decimal rendering and the decisions made
//! around working-directory and console calls.

pub mod cstr;
pub mod decimal;
pub mod shell;
pub mod token;

pub use cstr::{c_len, c_str, cstr_len, ensure_null_terminated, matchpcchar};
pub use decimal::{decimal, lemma_decimal_digits, udecimal};
pub use token::{lemma_split_join, splitft, Token};
pub use shell::{cd_path, getch_byte, pwd_text, ExecResult, CD_FAILED};
