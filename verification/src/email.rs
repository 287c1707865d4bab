//! Preparation of e-mail HTML for rendering: decoding, sanitizing, resolving
//! embedded images, and rewriting attributes the renderer does not know.

pub mod scan;
pub mod tags;

pub mod events;
pub mod sanitize;

pub mod decode;
pub mod preprocess;
pub mod uri;

pub mod prepare;

pub use crate::email::decode::decode_html;
pub use crate::email::prepare::{prepare_email_html, PreparedEmail, EMAIL_MASTER_CSS};
pub use crate::email::preprocess::preprocess_attrs;
pub use crate::email::sanitize::sanitize_html;
pub use crate::email::uri::{decode_data_uri, resolve_image_uri};
