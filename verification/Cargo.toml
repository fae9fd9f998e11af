[package]
name = "bevy_dogoap"
version = "0.1.0"
edition = "2021"
publish = false

[dependencies]
crossbeam-channel = "=0.5.17"
bevy_app = "=0.17.3"
bevy_ecs = "=0.17.3"
bevy_log = "=0.17.3"
bevy_platform = "=0.17.3"
bevy_reflect = "=0.17.3"
bevy_tasks = "=0.17.3"
bevy-trait-query = "=0.17.3"
