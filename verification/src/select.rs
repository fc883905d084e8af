//! The row selector: one row of the data, drawn at random by the `rand`
//! crate.

use rand::seq::SliceRandom;
use vstd::prelude::*;
use crate::row::Row;

verus! {

/// The generator of random numbers that the `rand` crate keeps for each
/// thread.
#[verifier::external_type_specification]
#[verifier::external_body]
pub struct ExThreadRng(rand::rngs::ThreadRng);

/// Calls `rand::thread_rng`, which hands out the generator of the
/// running thread. Nothing is claimed of it.
#[verifier::external_body]
fn thread_generator() -> rand::rngs::ThreadRng {
    rand::thread_rng()
}

/// Calls `rand::seq::SliceRandom::choose` on the rows: no row where there
/// is none, else one of the rows. Which one is left open.
#[verifier::external_body]
fn choose_row<'a>(rows: &'a Vec<Row>, generator: &mut rand::rngs::ThreadRng) -> (r: Option<&'a Row>)
    ensures
        match r {
            Some(row) => exists|i: int| 0 <= i < rows@.len() && #[trigger] rows@[i] == *row,
            None => rows@.len() == 0,
        },
{
    rows.choose(generator)
}

/// Draws one of the rows at random, each with the same chance. Without
/// rows there is nothing to draw.
pub fn sample_row<'a>(rows: &'a Vec<Row>) -> (r: Option<&'a Row>)
    ensures
        match r {
            Some(row) => exists|i: int| 0 <= i < rows@.len() && #[trigger] rows@[i] == *row,
            None => rows@.len() == 0,
        },
{
    let mut generator = thread_generator();
    choose_row(rows, &mut generator)
}

} // verus!
