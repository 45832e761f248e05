//! Columnar table engine: typed column storage with string interning, column
//! and global-text filters, multi-key stable sorting, a dirty-tracked view of
//! row indices and a virtual-window calculator.

pub mod column;
pub mod columnar_store;
pub mod filter;
pub mod index_ops;
pub mod intern;
pub mod layout_buffer;
pub mod num;
pub mod sort;
pub mod text;
pub mod types;
pub mod virtual_scroll;

pub use column::ColumnData;
pub use columnar_store::ColumnarStore;
pub use intern::StringInternTable;
pub use types::{
    Cell, ColumnFilter, ColumnType, FilterOp, FilterValue, GlobalFilter, NumOperand, SortConfig,
    SortDirection,
};
pub use virtual_scroll::{compute_row_window, RowScroll, RowWindow};
