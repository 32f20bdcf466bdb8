//! Where the fields of a record lie under the layout rules of C: each field at
//! the first offset behind its predecessor that its alignment allows.

use vstd::arithmetic::div_mod::{
    lemma_fundamental_div_mod, lemma_fundamental_div_mod_converse, lemma_mod_multiples_basic,
};
use vstd::prelude::*;

verus! {

/// The size and the alignment of a field.
#[derive(Debug, Clone, Copy, PartialEq, Eq)]
pub struct Field {
    pub size: usize,
    pub align: usize,
}

/// The least multiple of `align` that is not below `off`.
pub open spec fn spec_align_up(off: int, align: int) -> int
    recommends
        off >= 0,
        align >= 1,
{
    ((off + align - 1) / align) * align
}

/// `spec_align_up` gives a multiple of the alignment, at or above the offset
/// and less than one alignment above it.
pub proof fn lemma_align_up(off: int, align: int)
    requires
        off >= 0,
        align >= 1,
    ensures
        spec_align_up(off, align) % align == 0,
        off <= spec_align_up(off, align) < off + align,
{
    let q = (off + align - 1) / align;
    lemma_fundamental_div_mod(off + align - 1, align);
    lemma_mod_multiples_basic(q, align);
    assert(q * align == align * q) by (nonlinear_arith);
}

/// `spec_align_up` leaves a multiple of the alignment where it is and moves
/// any other offset up by what it lacks to the next multiple.
pub proof fn lemma_align_up_by_rest(off: int, align: int)
    requires
        off >= 0,
        align >= 1,
    ensures
        off % align == 0 ==> spec_align_up(off, align) == off,
        off % align != 0 ==> spec_align_up(off, align) == off + align - off % align,
{
    let q = off / align;
    let r = off % align;
    lemma_fundamental_div_mod(off, align);
    if r == 0 {
        assert(off + align - 1 == q * align + (align - 1)) by (nonlinear_arith)
            requires
                off == align * q + r,
                r == 0,
        ;
        lemma_fundamental_div_mod_converse(off + align - 1, align, q, align - 1);
        assert(q * align == off) by (nonlinear_arith)
            requires
                off == align * q + r,
                r == 0,
        ;
    } else {
        assert(off + align - 1 == (q + 1) * align + (r - 1)) by (nonlinear_arith)
            requires
                off == align * q + r,
        ;
        lemma_fundamental_div_mod_converse(off + align - 1, align, q + 1, r - 1);
        assert((q + 1) * align == off + align - r) by (nonlinear_arith)
            requires
                off == align * q + r,
        ;
    }
}

/// The offset of field `index` among `fields`: the first field lies at 0, and
/// each other field at the end of its predecessor, moved up to its own
/// alignment.
pub open spec fn spec_offset_of(fields: Seq<Field>, index: int) -> int
    recommends
        0 <= index < fields.len(),
    decreases index,
{
    if index <= 0 {
        0
    } else {
        spec_align_up(
            spec_offset_of(fields, index - 1) + fields[index - 1].size,
            fields[index].align as int,
        )
    }
}

/// The greatest alignment among the first `n` fields; 1 where there is none.
pub open spec fn spec_max_align(fields: Seq<Field>, n: int) -> int
    decreases n,
{
    if n <= 0 {
        1
    } else if fields[n - 1].align > spec_max_align(fields, n - 1) {
        fields[n - 1].align as int
    } else {
        spec_max_align(fields, n - 1)
    }
}

/// Where the last of the fields ends; 0 where there is none.
pub open spec fn spec_end_of(fields: Seq<Field>) -> int {
    if fields.len() == 0 {
        0
    } else {
        spec_offset_of(fields, fields.len() - 1) + fields.last().size
    }
}

/// The size of the record: the end of its last field, moved up to the
/// greatest alignment among its fields.
pub open spec fn spec_size_of(fields: Seq<Field>) -> int {
    spec_align_up(spec_end_of(fields), spec_max_align(fields, fields.len() as int))
}

/// Every field has an alignment of at least 1.
pub open spec fn spec_fields_wf(fields: Seq<Field>) -> bool {
    forall|i: int| 0 <= i < fields.len() ==> (#[trigger] fields[i]).align >= 1
}

/// Offsets do not go down, every field lies at a multiple of its alignment,
/// and no field begins before its predecessor ends.
pub proof fn lemma_offset_of(fields: Seq<Field>, index: int)
    requires
        spec_fields_wf(fields),
        0 <= index < fields.len(),
    ensures
        spec_offset_of(fields, index) >= 0,
        spec_offset_of(fields, index) % (fields[index].align as int) == 0,
        index > 0 ==> spec_offset_of(fields, index) >= spec_offset_of(fields, index - 1)
            + fields[index - 1].size,
    decreases index,
{
    if index > 0 {
        lemma_offset_of(fields, index - 1);
        lemma_align_up(
            spec_offset_of(fields, index - 1) + fields[index - 1].size,
            fields[index].align as int,
        );
    } else {
        assert(0int % (fields[index].align as int) == 0);
    }
}

/// Moves `off` up to the next multiple of `align`.
pub fn align_up(off: usize, align: usize) -> (r: usize)
    requires
        align >= 1,
        spec_align_up(off as int, align as int) <= usize::MAX,
    ensures
        r == spec_align_up(off as int, align as int),
{
    proof {
        lemma_align_up_by_rest(off as int, align as int);
    }
    let rest: usize = off % align;
    if rest == 0 {
        off
    } else {
        off + (align - rest)
    }
}

/// The offset of field `index` among `fields`.
pub fn offset_of(fields: &[Field], index: usize) -> (r: usize)
    requires
        spec_fields_wf(fields@),
        index < fields@.len(),
        spec_offset_of(fields@, index as int) + fields@[index as int].size <= usize::MAX,
    ensures
        r == spec_offset_of(fields@, index as int),
{
    let mut off: usize = 0;
    let mut i: usize = 0;
    proof {
        lemma_offsets_monotone(fields@, 0, index as int);
    }
    while i < index
        invariant
            i <= index < fields@.len(),
            spec_fields_wf(fields@),
            off == spec_offset_of(fields@, i as int),
            spec_offset_of(fields@, index as int) + fields@[index as int].size <= usize::MAX,
        decreases index - i,
    {
        proof {
            lemma_offsets_monotone(fields@, i as int + 1, index as int);
            lemma_offset_of(fields@, i as int + 1);
            lemma_align_up(off + fields@[i as int].size, fields@[i as int + 1].align as int);
            lemma_offset_of(fields@, index as int);
        }
        off = align_up(off + fields[i].size, fields[i + 1].align);
        i += 1;
    }
    off
}

/// The size of a record with the given fields.
pub fn size_of_fields(fields: &[Field]) -> (r: usize)
    requires
        spec_fields_wf(fields@),
        spec_size_of(fields@) <= usize::MAX,
    ensures
        r == spec_size_of(fields@),
{
    let n: usize = fields.len();
    let mut max_align: usize = 1;
    let mut i: usize = 0;
    while i < n
        invariant
            i <= n == fields@.len(),
            max_align == spec_max_align(fields@, i as int),
        decreases n - i,
    {
        if fields[i].align > max_align {
            max_align = fields[i].align;
        }
        i += 1;
    }
    proof {
        lemma_max_align(fields@, n as int);
        if n > 0 {
            lemma_offset_of(fields@, n - 1);
        }
        lemma_align_up(spec_end_of(fields@), max_align as int);
    }
    let end: usize = if n == 0 {
        0
    } else {
        offset_of(fields, n - 1) + fields[n - 1].size
    };
    align_up(end, max_align)
}

/// The greatest alignment is at least 1.
pub proof fn lemma_max_align(fields: Seq<Field>, n: int)
    ensures
        spec_max_align(fields, n) >= 1,
    decreases n,
{
    if n > 0 {
        lemma_max_align(fields, n - 1);
    }
}

/// A later field lies at or behind the end of an earlier one.
pub proof fn lemma_offsets_monotone(fields: Seq<Field>, i: int, j: int)
    requires
        spec_fields_wf(fields),
        0 <= i <= j < fields.len(),
    ensures
        spec_offset_of(fields, i) <= spec_offset_of(fields, j),
        i < j ==> spec_offset_of(fields, i) + fields[i].size <= spec_offset_of(fields, j),
    decreases j - i,
{
    lemma_offset_of(fields, i);
    if i < j {
        lemma_offsets_monotone(fields, i, j - 1);
        lemma_offset_of(fields, j);
        lemma_offset_of(fields, j - 1);
    }
}

} // verus!
