[package]
name = "unimarkup_lsp"
version = "0.1.0"
edition = "2021"
publish = false

[dependencies]
icu_calendar = "=1.2.0"
icu_collator = "=1.2.0"
icu_collections = "=1.2.0"
icu_datetime = "=1.2.0"
icu_decimal = "=1.2.0"
icu_list = "=1.2.0"
icu_locid = "=1.2.0"
icu_normalizer = "=1.2.0"
icu_plurals = "=1.2.0"
icu_properties = "=1.2.0"
icu_provider = "=1.2.0"
icu_provider_macros = "=1.2.0"
icu_timezone = "=1.2.0"
lsp-server = "=0.10.0"
lsp-types = "=0.94.1"
serde = { version = "1", features = ["derive"] }
serde_json = "1"
tokio = { version = "1", features = ["macros", "rt-multi-thread", "sync"] }
tinystr = "=0.7.1"
unimarkup-core = "=0.4.0"
unimarkup-inline = "=0.4.0"
