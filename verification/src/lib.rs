//! Extraction core for an offline catalog dictionary: DOM accessors, an
//! image-source resolver, a link/image rewriter, a structural extractor and
//! a strict XHTML serializer, each with a verified contract.

use vstd::prelude::*;

pub mod dom;
pub mod err;
pub mod gen;
pub mod index;
pub mod mon;
pub mod rewrite;
pub mod text;
pub mod weburl;
pub mod xhtml;

pub use dom::Matcher;
pub use dom::Node;
pub use dom::parse_simple_style_attr;
pub use err::ErrKind;
pub use err::ExtractError;
pub use gen::flex_groups;
pub use gen::roman_numerals;
pub use gen::roman_value;
pub use index::DexId;
pub use index::Index;
pub use mon::Config;
pub use mon::MonEntry;
pub use mon::MonImage;
pub use mon::read_mon;
pub use rewrite::ImageMap;
pub use weburl::get_highest_quality_src;
pub use weburl::image_id_ext;
pub use weburl::get_image_thumbnail_origin;
pub use xhtml::XhtmlEscaped;
pub use xhtml::serialize;

verus! {

} // verus!
