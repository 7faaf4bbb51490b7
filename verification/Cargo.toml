[package]
name = "seir_model"
version = "0.1.0"
edition = "2021"
publish = false

[dependencies]
ode_solvers = "0.3"
