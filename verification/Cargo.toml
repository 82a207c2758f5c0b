[package]
name = "qa_gen"
version = "0.1.0"
edition = "2021"
publish = false

[dependencies]
serde_json = "=1.0.151"
async-openai = { version = "=0.42.1", features = ["chat-completion"] }
tokio = { version = "=1.53.2", features = ["macros", "rt"] }
dotenv = "=0.15.0"
log = "=0.4.34"
webhook-flows = "=0.4.4"
flowsnet-platform-sdk = "=0.1.6"

[dev-dependencies]
csv = "=1.4.0"
