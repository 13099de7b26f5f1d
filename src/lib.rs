//! A directory-tree renderer: permission and size formatting, entry
//! filters, name ordering and the recursive renderer, with the laws that
//! hold of its output. Beside it stand the option parsers and small
//! computations of related command-line utilities (calendar months, cut
//! positions, head and tail counts, word counts). Everything is stated over
//! mathematical models and verified.

pub mod text;
pub mod num;
pub mod perms;
pub mod size;
pub mod filter;
pub mod pattern;
pub mod order;
pub mod tree;
pub mod identity;
pub mod laws;
pub mod cal;
pub mod cut;
pub mod fortune;
pub mod head;
pub mod tail;
pub mod wc;
