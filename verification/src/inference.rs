//! What the inference side needs from the library: tokenizers, and the
//! description of the layers of a model.

pub mod layer_ops;
pub mod tensor_ops;
pub mod tokenizer;
