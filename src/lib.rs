pub mod api;
pub mod asset_id;
pub mod grammar;
pub mod label;
pub mod layout;
pub mod list;

pub use api::{LoginReq, LoginRes};
pub use asset_id::AssetId;
pub use grammar::{parse, parse_bytes, Expected, SyntaxError};
pub use label::{background_style, label_style};
pub use layout::page_cells;
pub use list::{expand_list, ListEntry, ListEntryIter, RangeDirectionError, Validate};
