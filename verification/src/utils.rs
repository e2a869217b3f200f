pub mod kvec;
