//! The binary operators, one module each.

pub mod add;
pub mod add_assign;
pub mod and;
pub mod and_assign;
pub mod assign;
pub mod bit_and;
pub mod bit_or;
pub mod bit_xor;
pub mod bitand_assign;
pub mod bitor_assign;
pub mod bitxor_assign;
pub mod div;
pub mod div_assign;
pub mod equal;
pub mod exp;
pub mod gequal;
pub mod greater;
pub mod lequal;
pub mod less;
pub mod mod_assign;
pub mod modulo;
pub mod mul;
pub mod mul_assign;
pub mod nequal;
pub mod or;
pub mod or_assign;
pub mod sub;
pub mod sub_assign;
