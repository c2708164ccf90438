//! A residual block: a factor bound to the variables it reads and to the
//! rows of the global residual that it fills.

use vstd::prelude::*;
use crate::layout::{lemma_offset_monotonic, lemma_segment_within_total, offset, sizes_of, total};

verus! {

/// A factor together with the names of its variables, in the order in which
/// the factor reads them, the number of residuals it produces and the row at
/// which they start. The factor and the loss are carried along untouched.
pub struct ResidualBlock<F, L> {
    pub residual_block_id: usize,
    pub dim_residual: usize,
    pub residual_row_start_idx: usize,
    pub variable_key_list: Vec<String>,
    pub factor: F,
    pub loss_func: Option<L>,
}

/// The names held by a list of strings.
pub open spec fn names_of(keys: Seq<String>) -> Seq<Seq<char>> {
    Seq::new(keys.len(), |i: int| keys[i]@)
}

/// The names held by a list of string slices.
pub open spec fn names_of_slices(keys: Seq<&str>) -> Seq<Seq<char>> {
    Seq::new(keys.len(), |i: int| keys[i]@)
}

impl<F, L> ResidualBlock<F, L> {
    /// Names of the variables, in the order in which the factor reads them.
    pub open spec fn keys(&self) -> Seq<Seq<char>> {
        names_of(self.variable_key_list@)
    }

    /// Binds `factor` to the variables named in `variable_key_size_list`.
    pub fn new(
        residual_block_id: usize,
        dim_residual: usize,
        residual_row_start_idx: usize,
        variable_key_size_list: &[&str],
        factor: F,
        loss_func: Option<L>,
    ) -> (r: Self)
        ensures
            r.residual_block_id == residual_block_id,
            r.dim_residual == dim_residual,
            r.residual_row_start_idx == residual_row_start_idx,
            r.keys() == names_of_slices(variable_key_size_list@),
            r.factor == factor,
            r.loss_func == loss_func,
    {
        let mut keys: Vec<String> = Vec::new();
        let mut i: usize = 0;
        while i < variable_key_size_list.len()
            invariant
                i <= variable_key_size_list@.len(),
                keys@.len() == i,
                forall|k: int| 0 <= k < i ==> keys@[k]@ == variable_key_size_list@[k]@,
            decreases variable_key_size_list@.len() - i,
        {
            keys.push(variable_key_size_list[i].to_owned());
            i += 1;
        }
        assert(names_of(keys@) =~= names_of_slices(variable_key_size_list@));
        ResidualBlock {
            residual_block_id,
            dim_residual,
            residual_row_start_idx,
            variable_key_list: keys,
            factor,
            loss_func,
        }
    }
}

/// For variables of the given sizes laid out one after the other, the local
/// columns of each: variable `i` owns `variable_rows[i]` consecutive columns
/// that start where variable `i - 1` ends.
pub fn get_variable_rows(variable_rows: &[usize]) -> (r: Vec<Vec<usize>>)
    requires
        total(sizes_of(variable_rows@)) <= usize::MAX,
    ensures
        r@.len() == variable_rows@.len(),
        forall|i: int|
            0 <= i < r@.len() ==> (#[trigger] r@[i])@ == Seq::new(
                variable_rows@[i] as nat,
                |j: int| (offset(sizes_of(variable_rows@), i) + j) as usize,
            ),
{
    let ghost s = sizes_of(variable_rows@);
    let mut result: Vec<Vec<usize>> = Vec::new();
    let mut current: usize = 0;
    let mut i: usize = 0;
    while i < variable_rows.len()
        invariant
            i <= variable_rows@.len(),
            s == sizes_of(variable_rows@),
            total(s) <= usize::MAX,
            current == offset(s, i as int),
            result@.len() == i,
            forall|k: int|
                0 <= k < i ==> (#[trigger] result@[k])@ == Seq::new(
                    variable_rows@[k] as nat,
                    |j: int| (offset(s, k) + j) as usize,
                ),
        decreases variable_rows@.len() - i,
    {
        let num = variable_rows[i];
        proof {
            lemma_segment_within_total(s, i as int);
            lemma_offset_monotonic(s, i as int, i + 1);
        }
        let mut range: Vec<usize> = Vec::new();
        let mut j: usize = 0;
        while j < num
            invariant
                j <= num,
                current + num <= usize::MAX,
                range@ == Seq::new(j as nat, |t: int| (current + t) as usize),
            decreases num - j,
        {
            range.push(current + j);
            assert(range@ =~= Seq::new((j + 1) as nat, |t: int| (current + t) as usize));
            j += 1;
        }
        assert(range@ =~= Seq::new(
            variable_rows@[i as int] as nat,
            |j: int| (offset(s, i as int) + j) as usize,
        ));
        result.push(range);
        current = current + num;
        i += 1;
    }
    result
}

} // verus!
