//! Reading and writing of Korean word-processor documents: the legacy
//! compound-file format (record framing, file header, body text) and the
//! zipped XML package format, with text extraction for retrieval.

pub mod body_text;
pub mod container;
pub mod crypto;
pub mod error;
pub mod header;
pub mod hwpx;
pub mod hwpx_reader;
pub mod model;
pub mod rag;
pub mod reader;
pub mod record;
pub mod writer;

pub use crate::error::HwpError;
pub use crate::model::{HwpDocument, ImageFormat, PreviewImage};
pub use crate::rag::{document_kind, extract_text_for_rag, finish_retrieval_text, normalize_text, DocumentKind};
pub use crate::reader::HwpReader;
pub use crate::hwpx::{HwpxTextStyle, HwpxWriter};
pub use crate::hwpx_reader::{HwpxDocument, HwpxReader};
pub use crate::writer::{HwpWriter, TextStyle};
