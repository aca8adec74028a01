//! How each structural category is diffed.
//!
//! Leaves (integers, `char`, `bool`, `()`, and the identifier types of [`identifiers`]) compare
//! by equality. Products (tuples, [`crate::identified::Identified`]) diff every component and
//! report no difference exactly when no component differs. Sums (`Option`, `Result`) diff the
//! payloads of equal variants and keep both whole values when the variant changed. Ordered
//! sequences (`Vec`, `VecDeque`, strings) are aligned by [`crate::lcs`]. Keyed containers
//! (`HashMap`, `BTreeMap`, `HashSet`, `BTreeSet`) are matched by key, never aligned: their
//! iteration order is no part of their value. Handles (`&T`, `Box`, `Rc`, `Arc`) diff what
//! they point to.
pub mod borrow;
pub mod collection;
pub mod identifiers;
pub mod map;
pub mod option;
pub mod primitives;
pub mod product;
pub mod set;
pub mod string;
