//! Calendar notes: dates, day markings, the notes kept per day and the
//! layout of a month page.
pub mod marking;
pub mod note_date;
pub mod user_calendar_data;
pub mod month;
pub mod day_selection;
