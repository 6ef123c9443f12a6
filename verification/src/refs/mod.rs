pub mod contract;
pub mod resolver;
pub mod site;
pub mod sqlite;
