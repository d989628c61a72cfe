pub mod camila;
pub mod erika;
pub mod katty;
pub mod the_girl_of_the_white_dog;
