//! A weekly timetable: schedule entries, their grouping by day and starting
//! hour, the placement of each entry in a day-by-hour grid, the colors of the
//! subjects, and the refresh state of the viewer that shows them.

pub mod model;
pub mod grouping;
pub mod layout;
pub mod colors;
pub mod session;
