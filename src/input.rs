use vstd::prelude::*;
use crate::moves::{acceptable_moves, MoveSet};

verus! {

/// Why an input line does not describe a game.
#[derive(PartialEq, Eq, Structural, Debug, Clone, Copy)]
pub enum InputError {
    /// Fewer than the stone count and the move count.
    MissingValue,
    /// A field that is not a decimal number fitting in `usize`.
    NotANumber,
    /// The move count differs from the number of moves that follow it.
    CountMismatch,
    /// The moves repeat a value, hold 0, omit 1 or are too many.
    IllegalMoves,
}

pub open spec fn is_digit(b: u8) -> bool {
    48 <= b <= 57
}

/// Value of the decimal digits `t`, most significant first.
pub open spec fn decimal_value(t: Seq<u8>) -> nat
    decreases t.len(),
{
    if t.len() == 0 {
        0
    } else {
        decimal_value(t.drop_last()) * 10 + (t.last() - 48) as nat
    }
}

/// `t` is a non-empty run of decimal digits whose value fits in `usize`.
pub open spec fn is_number(t: Seq<u8>) -> bool {
    &&& t.len() > 0
    &&& forall|i: int| 0 <= i < t.len() ==> is_digit(#[trigger] t[i])
    &&& decimal_value(t) <= usize::MAX
}

/// The numbers written in `f`, one per field.
pub open spec fn field_values(f: Seq<Vec<u8>>) -> Seq<usize> {
    f.map_values(|t: Vec<u8>| decimal_value(t@) as usize)
}

proof fn lemma_decimal_monotone(t: Seq<u8>, n: int)
    requires
        0 <= n <= t.len(),
        forall|i: int| 0 <= i < t.len() ==> is_digit(#[trigger] t[i]),
    ensures
        decimal_value(t.subrange(0, n)) <= decimal_value(t),
    decreases t.len() - n,
{
    if n < t.len() {
        lemma_decimal_monotone(t, n + 1);
        assert(t.subrange(0, n + 1).drop_last() =~= t.subrange(0, n));
        assert(decimal_value(t.subrange(0, n + 1)) == decimal_value(t.subrange(0, n)) * 10 + (
        t[n] - 48) as nat);
    } else {
        assert(t.subrange(0, n) =~= t);
    }
}

/// The number written in `t`, or `None` when `t` is not a number.
pub fn parse_number(t: &Vec<u8>) -> (r: Option<usize>)
    ensures
        r.is_some() == is_number(t@),
        r matches Some(v) ==> v == decimal_value(t@),
{
    if t.len() == 0 {
        return None;
    }
    let mut v: usize = 0;
    let mut i: usize = 0;
    while i < t.len()
        invariant
            0 <= i <= t@.len(),
            forall|j: int| 0 <= j < i ==> is_digit(#[trigger] t@[j]),
            v == decimal_value(t@.subrange(0, i as int)),
        decreases t@.len() - i,
    {
        let b = t[i];
        assert(t@.subrange(0, i + 1).drop_last() =~= t@.subrange(0, i as int));
        if b < 48 || b > 57 {
            return None;
        }
        let d = (b - 48) as usize;
        if v > (usize::MAX - d) / 10 {
            proof {
                assert(forall|j: int| 0 <= j < i + 1 ==> is_digit(#[trigger] t@[j]));
                if forall|j: int| 0 <= j < t@.len() ==> is_digit(#[trigger] t@[j]) {
                    lemma_decimal_monotone(t@, i + 1);
                }
                assert(v * 10 + d > usize::MAX) by (nonlinear_arith)
                    requires
                        v > (usize::MAX - d) / 10,
                        d <= 9,
                ;
            }
            return None;
        }
        v = v * 10 + d;
        i += 1;
    }
    assert(t@.subrange(0, t@.len() as int) =~= t@);
    Some(v)
}

/// The game described by the fields of one input line:
/// `<stones> <move count> <move> ...`.
///
/// Fails with `MissingValue` on fewer than two fields, else `NotANumber`
/// when a field is not a number, else `CountMismatch` when the move count
/// is not the number of moves given, else `IllegalMoves` when they are not
/// a legal move set.
pub fn parse_instance(fields: &Vec<Vec<u8>>) -> (r: Result<(usize, MoveSet), InputError>)
    ensures
        fields@.len() < 2 ==> r == Err::<(usize, MoveSet), InputError>(InputError::MissingValue),
        fields@.len() >= 2 ==> {
            let vals = field_values(fields@);
            let mvs = vals.subrange(2, vals.len() as int);
            if exists|i: int| 0 <= i < fields@.len() && !is_number(#[trigger] fields@[i]@) {
                r == Err::<(usize, MoveSet), InputError>(InputError::NotANumber)
            } else if vals[1] != fields@.len() - 2 {
                r == Err::<(usize, MoveSet), InputError>(InputError::CountMismatch)
            } else if !acceptable_moves(mvs) {
                r == Err::<(usize, MoveSet), InputError>(InputError::IllegalMoves)
            } else {
                r matches Ok((stones, ms)) && stones == vals[0] && ms.wf() && forall|x: usize|
                    ms@.contains(x) <==> mvs.contains(x)
            }
        },
{
    let n = fields.len();
    if n < 2 {
        return Err(InputError::MissingValue);
    }
    let mut vals: Vec<usize> = Vec::new();
    let mut i: usize = 0;
    while i < n
        invariant
            n == fields@.len(),
            2 <= n,
            0 <= i <= n,
            vals@ == field_values(fields@).subrange(0, i as int),
            forall|j: int| 0 <= j < i ==> is_number(#[trigger] fields@[j]@),
        decreases n - i,
    {
        match parse_number(&fields[i]) {
            Some(v) => {
                vals.push(v);
            },
            None => {
                assert(!is_number(fields@[i as int]@));
                return Err(InputError::NotANumber);
            },
        }
        assert(vals@ =~= field_values(fields@).subrange(0, i + 1));
        i += 1;
    }
    assert(vals@ =~= field_values(fields@));
    if vals[1] != n - 2 {
        return Err(InputError::CountMismatch);
    }
    let mut mvs: Vec<usize> = Vec::new();
    let mut k: usize = 2;
    while k < n
        invariant
            n == vals@.len(),
            2 <= k <= n,
            mvs@ == vals@.subrange(2, k as int),
        decreases n - k,
    {
        mvs.push(vals[k]);
        assert(mvs@ =~= vals@.subrange(2, k + 1));
        k += 1;
    }
    match MoveSet::from_moves(mvs) {
        Some(ms) => Ok((vals[0], ms)),
        None => Err(InputError::IllegalMoves),
    }
}

} // verus!
