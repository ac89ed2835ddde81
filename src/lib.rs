//! The RC5 block cipher, generic over the word size.
//!
//! RC5 is a symmetric block cipher with three parameters: the word size `w`
//! in bits (16, 32 or 64 here), the number of rounds `r` (0 to 256), and a
//! secret key of `b` bytes (0 to 256). The usual notation is RC5-w/r/b.
//!
//! A secret key is expanded into a table of `2 * (r + 1)` round keys
//! (`expanded_key_table`), which encrypts and decrypts blocks of two words
//! (`block`); an `RC5` instance holds the table and applies it to byte
//! buffers block by block (`rc5`).

pub mod block;
pub mod control_block;
pub mod error;
pub mod expanded_key_table;
pub mod le_bytes;
pub mod magic_const;
pub mod rc5;
pub mod secret_key;
pub mod word;

pub use block::Block;
pub use control_block::ControlBlock;
pub use error::Error;
pub use expanded_key_table::ExpandedKeyTable;
pub use le_bytes::{FromLeBytes, ToLeBytes};
pub use magic_const::HasPQ;
pub use rc5::RC5;
pub use secret_key::SecretKey;
pub use word::Word;
