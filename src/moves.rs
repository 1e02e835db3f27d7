use vstd::prelude::*;

verus! {

/// The largest number of move sizes a game may have.
pub const MAX_MOVES: usize = 10;

/// `m` is a legal move set in its canonical order: at most `MAX_MOVES`
/// values, strictly descending, and ending in 1 (so every value is positive
/// and 1 is always a legal move).
pub open spec fn valid_moves(m: Seq<usize>) -> bool {
    &&& 1 <= m.len() <= MAX_MOVES
    &&& forall|i: int, j: int| 0 <= i < j < m.len() ==> m[i] > m[j]
    &&& m[m.len() - 1] == 1
}

/// `v`, in any order, describes a legal move set: at most `MAX_MOVES`
/// distinct positive values, one of them 1.
pub open spec fn acceptable_moves(v: Seq<usize>) -> bool {
    &&& v.len() <= MAX_MOVES
    &&& v.no_duplicates()
    &&& v.contains(1)
    &&& forall|i: int| 0 <= i < v.len() ==> v[i] > 0
}

/// The legal move sizes of one game, largest first.
pub struct MoveSet {
    moves: Vec<usize>,
}

impl View for MoveSet {
    type V = Seq<usize>;

    closed spec fn view(&self) -> Seq<usize> {
        self.moves@
    }
}

impl MoveSet {
    pub open spec fn wf(&self) -> bool {
        valid_moves(self@)
    }

    /// The move set with the values of `v`, put in descending order, or
    /// `None` when `v` is not a legal move set.
    pub fn from_moves(v: Vec<usize>) -> (r: Option<MoveSet>)
        ensures
            r.is_some() == acceptable_moves(v@),
            r matches Some(ms) ==> ms.wf() && forall|x: usize| ms@.contains(x) <==> v@.contains(x),
    {
        if v.len() > MAX_MOVES {
            return None;
        }
        let mut out: Vec<usize> = Vec::new();
        let mut i: usize = 0;
        while i < v.len()
            invariant
                0 <= i <= v@.len() <= MAX_MOVES,
                out@.len() == i,
                forall|a: int, b: int| 0 <= a < b < out@.len() ==> out@[a] > out@[b],
                forall|x: usize| out@.contains(x) <==> v@.subrange(0, i as int).contains(x),
                v@.subrange(0, i as int).no_duplicates(),
                forall|j: int| 0 <= j < i ==> v@[j] > 0,
            decreases v@.len() - i,
        {
            let x = v[i];
            if x == 0 {
                assert(v@[i as int] == 0);
                return None;
            }
            let mut p: usize = 0;
            while p < out.len() && out[p] > x
                invariant
                    0 <= p <= out@.len(),
                    forall|q: int| 0 <= q < p ==> out@[q] > x,
                decreases out@.len() - p,
            {
                p += 1;
            }
            if p < out.len() && out[p] == x {
                proof {
                    assert(out@.contains(x));
                    let j = choose|j: int| 0 <= j < i && v@.subrange(0, i as int)[j] == x;
                    assert(v@[j] == v@[i as int]);
                    assert(!v@.no_duplicates());
                }
                return None;
            }
            let ghost prev = out@;
            let ghost pre = v@.subrange(0, i as int);
            proof {
                assert(forall|y: usize| prev.contains(y) <==> pre.contains(y));
                assert(!prev.contains(x)) by {
                    if prev.contains(x) {
                        let q = choose|q: int| 0 <= q < prev.len() && prev[q] == x;
                        if q < p {
                        } else {
                            assert(prev[p as int] >= prev[q]);
                        }
                    }
                }
            }
            out.insert(p, x);
            proof {
                assert(v@.subrange(0, i + 1) =~= pre.push(x));
                assert forall|a: int, b: int| 0 <= a < b < out@.len() implies out@[a] > out@[b] by {
                    if b < p {
                    } else if b == p {
                    } else if a < p {
                        assert(prev[b - 1] < x);
                    } else if a == p {
                        assert(prev[b - 1] <= prev[p as int]);
                    } else {
                    }
                }
                assert forall|y: usize| out@.contains(y) <==> v@.subrange(0, i + 1).contains(y) by {
                    if out@.contains(y) {
                        let q = choose|q: int| 0 <= q < out@.len() && out@[q] == y;
                        if q < p {
                            assert(prev.contains(y));
                        } else if q > p {
                            assert(prev[q - 1] == y);
                            assert(prev.contains(y));
                        }
                        assert(pre.push(x).contains(y)) by {
                            if y == x {
                                assert(pre.push(x)[pre.len() as int] == x);
                            } else {
                                let t = choose|t: int| 0 <= t < pre.len() && pre[t] == y;
                                assert(pre.push(x)[t] == y);
                            }
                        }
                    }
                    if v@.subrange(0, i + 1).contains(y) {
                        let t = choose|t: int| 0 <= t <= i && pre.push(x)[t] == y;
                        if t == i {
                            assert(out@[p as int] == y);
                        } else {
                            assert(pre.contains(y));
                            assert(prev.contains(y));
                            let q = choose|q: int| 0 <= q < prev.len() && prev[q] == y;
                            if q < p {
                                assert(out@[q] == y);
                            } else {
                                assert(out@[q + 1] == y);
                            }
                        }
                    }
                }
                assert(pre.push(x).no_duplicates()) by {
                    assert forall|a: int, b: int|
                        0 <= a < pre.push(x).len() && 0 <= b < pre.push(x).len() && a != b
                        implies pre.push(x)[a] != pre.push(x)[b] by {
                        if a == pre.len() {
                            assert(pre.contains(pre[b]));
                        } else if b == pre.len() {
                            assert(pre.contains(pre[a]));
                        }
                    }
                }
            }
            i += 1;
        }
        proof {
            assert(v@.subrange(0, v@.len() as int) =~= v@);
        }
        let n = out.len();
        if n == 0 || out[n - 1] != 1 {
            proof {
                if v@.contains(1) {
                    assert(out@.contains(1));
                    let q = choose|q: int| 0 <= q < out@.len() && out@[q] == 1;
                    assert(out@.contains(out@[n - 1]));
                    assert(out@[q] >= out@[n - 1]);
                }
            }
            return None;
        }
        proof {
            assert(out@.contains(out@[n - 1]));
            assert(v@.contains(1));
            assert forall|j: int| 0 <= j < v@.len() implies v@[j] > 0 by {
                assert(v@.subrange(0, v@.len() as int)[j] == v@[j]);
            }
        }
        Some(MoveSet { moves: out })
    }

    /// Number of move sizes.
    pub fn len(&self) -> (r: usize)
        ensures
            r == self@.len(),
    {
        self.moves.len()
    }

    /// The `i`-th move size, counting from the largest.
    pub fn get(&self, i: usize) -> (r: usize)
        requires
            i < self@.len(),
        ensures
            r == self@[i as int],
    {
        self.moves[i]
    }

    /// Whether `x` is one of the move sizes.
    pub fn contains(&self, x: usize) -> (r: bool)
        ensures
            r == self@.contains(x),
    {
        let mut i: usize = 0;
        while i < self.moves.len()
            invariant
                0 <= i <= self@.len(),
                forall|j: int| 0 <= j < i ==> self@[j] != x,
            decreases self@.len() - i,
        {
            if self.moves[i] == x {
                return true;
            }
            i += 1;
        }
        false
    }

    /// The move sizes, largest first.
    pub fn values(&self) -> (r: Vec<usize>)
        ensures
            r@ == self@,
    {
        let mut r: Vec<usize> = Vec::new();
        let mut i: usize = 0;
        while i < self.moves.len()
            invariant
                0 <= i <= self@.len(),
                r@ == self@.subrange(0, i as int),
            decreases self@.len() - i,
        {
            r.push(self.moves[i]);
            i += 1;
        }
        r
    }
}

} // verus!
