pub mod commands;
pub mod error;
pub mod formats;
pub mod literal;
pub mod numeral;
pub mod table;

pub use commands::{show_me_bits, show_me_decimal, show_me_hex, show_me_octal, show_me_signed};
pub use error::BitsError;
pub use formats::{render_decimal, render_hex, render_octal, render_signed};
pub use literal::value_from_string;
pub use table::render_bits;
