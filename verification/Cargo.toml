[package]
name = "ecs_disk_manager"
version = "0.1.0"
edition = "2021"
publish = false

[dependencies]
secstr = "*"
rand = "*"
gptman = "*"
loopdev = "*"
