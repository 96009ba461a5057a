//! Turns a decoded block, its transactions and their logs into rows for three linked
//! tables. Wide integers become exact decimals; log rows are linked to their
//! transactions by batch position until the store returns identifiers, then resolved
//! and split into bounded insert statements.

use vstd::prelude::*;

pub mod codec;
pub mod rows;
pub mod engine;

verus! {

} // verus!
