pub mod app_model;
pub mod explorer;
pub mod pool;
pub mod response;
