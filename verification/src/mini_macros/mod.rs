pub mod tokenizer;
