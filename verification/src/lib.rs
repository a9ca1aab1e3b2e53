//! Comparison of text in lexical and natural order.
//!
//! *Lexical* comparison treats a non-ASCII letter or number like its closest
//! ASCII spelling (`á` like `a`, `ß` like `ss`) and ignores case. *Natural*
//! comparison orders runs of ASCII digits as the numbers they spell, however
//! long they are, so that `50` comes before `100`. A comparison may also skip
//! every character that is not alphanumeric. Two different texts never compare
//! as equal: where the compared streams agree, the code points of the texts
//! decide.
//!
//! What each comparison returns is stated in [`order`], what holds of all of
//! them is proved in [`laws`].
//!
//! | function                         | lexical | natural | only alphanumeric |
//! | -------------------------------- |:-------:|:-------:|:-----------------:|
//! | `cmp`                            |         |         |                   |
//! | `only_alnum_cmp`                 |         |         | yes               |
//! | `lexical_cmp`                    | yes     |         |                   |
//! | `lexical_only_alnum_cmp`         | yes     |         | yes               |
//! | `natural_cmp`                    |         | yes     |                   |
//! | `natural_only_alnum_cmp`         |         | yes     | yes               |
//! | `natural_lexical_cmp`            | yes     | yes     |                   |
//! | `natural_lexical_only_alnum_cmp` | yes     | yes     | yes               |

pub mod classify;
pub mod cmp;
pub mod iter;
pub mod laws;
pub mod lemmas;
pub mod lockstep;
pub mod order;

pub use cmp::{
    cmp, compare, lexical_cmp, lexical_only_alnum_cmp, natural_cmp, natural_lexical_cmp,
    natural_lexical_only_alnum_cmp, natural_only_alnum_cmp, only_alnum_cmp,
};
pub use order::Axes;
