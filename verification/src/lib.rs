//! The rules behind the tools for Mastervolt MasterBus: what the Signal K service
//! publishes, what the configuration editors accept, and what the terminal program does.
//!
//! Nothing here touches the bus, the network or a file. The programs around this library
//! read, send and write; they hand in what they read, and act on what they get back.
//!
//! - [`mapper`] says where each field of a known device is published and how its value is
//!   read, [`mapper_laws`] what holds of all such paths, [`field_laws`] what each of them is,
//!   [`value`] what values are.
//! - [`discovery`] records what was found on the bus in the field configuration of
//!   [`publication`], whose file can be read back as [`publication_laws`] shows and is refused
//!   as [`config_laws`] says. [`gate`] turns groups on and off, [`sidecar`] decides what is
//!   streamed, [`service_laws`] says what that comes to, and [`calendar`] stamps it.
//! - [`http`] reads requests to the configuration editor, as told in [`http_laws`]; [`web`]
//!   answers the browser editor, and [`signalk_schema`] reads the schema of Signal K from a
//!   [`schema_tree`], with [`schema_laws`] for both.
//! - [`app`] is the state of the terminal program, shown in its [`panes`], and [`app_laws`]
//!   what it does; [`app_mapping`] edits its mapping file, with [`editor`], [`mapping`] and
//!   [`signalk`], and [`mapping_laws`] and [`editor_laws`] say what is in the file then.
//! - [`slug`], [`quote`], [`strmap`] and [`text`] are what all of these rest on, with
//!   [`name_laws`] and [`text_laws`].

pub mod app;
pub mod app_laws;
pub mod app_mapping;
pub mod calendar;
pub mod config_laws;
pub mod discovery;
pub mod editor;
pub mod editor_laws;
pub mod field_laws;
pub mod gate;
pub mod http;
pub mod http_laws;
pub mod mapper;
pub mod mapper_laws;
pub mod mapping;
pub mod mapping_laws;
pub mod name_laws;
pub mod panes;
pub mod publication;
pub mod publication_laws;
pub mod quote;
pub mod schema_laws;
pub mod schema_tree;
pub mod service_laws;
pub mod sidecar;
pub mod signalk;
pub mod signalk_schema;
pub mod slug;
pub mod strmap;
pub mod text;
pub mod text_laws;
pub mod value;
pub mod web;
