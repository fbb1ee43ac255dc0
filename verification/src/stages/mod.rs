pub mod filter;
pub mod remove_field;
pub mod rename_field;
pub mod select_fields;
pub mod set_field;

pub use filter::FilterStage;
pub use remove_field::RemoveFieldStage;
pub use rename_field::RenameFieldStage;
pub use select_fields::SelectFieldsStage;
pub use set_field::SetFieldStage;
