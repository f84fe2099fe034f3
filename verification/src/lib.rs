pub mod de;
pub mod error;
pub mod into_vdfs;
pub mod order;
pub mod owned;
pub mod ser;
pub mod strings;
pub mod text;
pub mod tokens;
pub mod value;

pub use tokens::naive::{NaiveToken, NaiveTokenStream};
pub use tokens::{Token, TokenStream};

pub use into_vdfs::IntoVdfs;
pub use owned::{OwnedValue, OwnedVdf};
pub use value::{Key, Obj, PartialVdf, Value, Vdf};
