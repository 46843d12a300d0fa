mod speck;
mod word;

pub use speck::{
    Error, Speck, Speck128_128, Speck128_192, Speck128_256, Speck64_128, Speck64_96, SpeckCipher,
};
pub use word::Word;
