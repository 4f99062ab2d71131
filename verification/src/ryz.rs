pub mod enm;
pub mod err;
pub mod res;
pub mod time;
