//! Type hierarchy navigation for a PHP language server: building hierarchy
//! items for classes of the workspace index, and finding their supertypes and subtypes.
pub mod text;
pub mod item;
pub mod workspace;
pub mod sort;
pub mod hierarchy;
