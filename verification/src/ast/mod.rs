pub mod operator;

