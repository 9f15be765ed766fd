pub mod deps_usecase;
