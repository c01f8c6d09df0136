//! Desktop-pet companion logic: settings hygiene, reminder scheduling, pet
//! package and catalog validation, pet selection and window bookkeeping.

pub mod text;
pub mod settings;
pub mod json;
pub mod calendar;
pub mod timetable;
pub mod reminders;
pub mod pets;
pub mod urls;
pub mod catalog;
pub mod windows;
pub mod releases;
pub mod selection;
pub mod pet_asset_scope;
pub mod motion;
pub mod laws;
