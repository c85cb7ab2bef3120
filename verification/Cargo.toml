[package]
name = "recursion_core"
version = "0.1.0"
edition = "2021"
publish = false

[dependencies]
itertools = "*"
p3-field = "*"
p3-matrix = "*"
p3-air = "*"
p3-lookup = "*"
p3-baby-bear = "*"
p3-koala-bear = "*"
p3-goldilocks = "*"
p3-blake3 = "*"
p3-challenger = "*"
p3-commit = "*"
p3-dft = "*"
p3-fri = "*"
p3-merkle-tree = "*"
p3-symmetric = "*"
p3-uni-stark = "*"
rand = "*"
tracing = "*"
