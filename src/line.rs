use vstd::prelude::*;

verus! {

/// One row of the board: four tile values, `0` for an empty cell.
pub type BoardLine = [u16; 4];

/// The tiles of a row, in order, with the empty cells left out.
pub open spec fn tiles(s: Seq<u16>) -> Seq<u16>
    decreases s.len(),
{
    if s.len() == 0 {
        s
    } else if s[0] == 0 {
        tiles(s.drop_first())
    } else {
        seq![s[0]] + tiles(s.drop_first())
    }
}

/// Merges equal neighbours of a tile sequence pairwise, from the front: each
/// tile takes part in at most one merge.
pub open spec fn merged(s: Seq<u16>) -> Seq<u16>
    decreases s.len(),
{
    if s.len() < 2 {
        s
    } else if s[0] == s[1] {
        seq![(2 * s[0]) as u16] + merged(s.subrange(2, s.len() as int))
    } else {
        seq![s[0]] + merged(s.drop_first())
    }
}

/// `s` followed by empty cells up to length `n`.
pub open spec fn padded(s: Seq<u16>, n: nat) -> Seq<u16> {
    s + Seq::new((n - s.len()) as nat, |i: int| 0u16)
}

/// A row after a move towards its first cell.
pub open spec fn slid_left(row: Seq<u16>) -> Seq<u16> {
    padded(merged(tiles(row)), row.len())
}

/// A row after a move towards its last cell: the mirror of `slid_left`.
pub open spec fn slid_right(row: Seq<u16>) -> Seq<u16> {
    slid_left(row.reverse()).reverse()
}

/// Every value can be doubled within `u16`.
pub open spec fn doubles_fit(s: Seq<u16>) -> bool {
    forall|k: int| 0 <= k < s.len() ==> s[k] < 0x8000
}

/// The sum of the values of a row.
pub open spec fn total(s: Seq<u16>) -> int
    decreases s.len(),
{
    if s.len() == 0 {
        0
    } else {
        s[0] + total(s.drop_first())
    }
}

/// No two neighbours of `s` are equal.
pub open spec fn no_equal_neighbours(s: Seq<u16>) -> bool {
    forall|k: int| 0 <= k < s.len() - 1 ==> #[trigger] s[k] != s[k + 1]
}

proof fn lemma_tiles_zeros(s: Seq<u16>)
    requires
        forall|k: int| 0 <= k < s.len() ==> s[k] == 0,
    ensures
        tiles(s) == Seq::<u16>::empty(),
    decreases s.len(),
{
    if s.len() > 0 {
        lemma_tiles_zeros(s.drop_first());
    }
}

proof fn lemma_tiles_skip_zeros(s: Seq<u16>, m: int)
    requires
        0 <= m <= s.len(),
        forall|k: int| 0 <= k < m ==> s[k] == 0,
    ensures
        tiles(s) == tiles(s.subrange(m, s.len() as int)),
    decreases m,
{
    if m == 0 {
        assert(s.subrange(0, s.len() as int) =~= s);
    } else {
        let t = s.drop_first();
        lemma_tiles_skip_zeros(t, m - 1);
        assert(t.subrange(m - 1, t.len() as int) =~= s.subrange(m, s.len() as int));
    }
}

proof fn lemma_tiles_len(s: Seq<u16>)
    ensures
        tiles(s).len() <= s.len(),
    decreases s.len(),
{
    if s.len() > 0 {
        lemma_tiles_len(s.drop_first());
    }
}

/// The tiles of a segment that starts with `s[0]` and whose next tile stands at `m`.
proof fn lemma_tiles_gap(s: Seq<u16>, m: int)
    requires
        1 <= m < s.len(),
        forall|k: int| 1 <= k < m ==> s[k] == 0,
        s[m] != 0,
    ensures
        tiles(s) == (if s[0] == 0 {
            Seq::<u16>::empty()
        } else {
            seq![s[0]]
        }) + seq![s[m]] + tiles(s.subrange(m + 1, s.len() as int)),
{
    let t = s.drop_first();
    lemma_tiles_skip_zeros(t, m - 1);
    let u = t.subrange(m - 1, t.len() as int);
    assert(u =~= s.subrange(m, s.len() as int));
    assert(u.drop_first() =~= s.subrange(m + 1, s.len() as int));
    assert(tiles(u) == seq![s[m]] + tiles(u.drop_first()));
    if s[0] == 0 {
        assert(tiles(s) == tiles(t));
        assert(Seq::<u16>::empty() + seq![s[m]] + tiles(s.subrange(m + 1, s.len() as int))
            =~= seq![s[m]] + tiles(s.subrange(m + 1, s.len() as int)));
    } else {
        assert(tiles(s) == seq![s[0]] + tiles(t));
        assert(seq![s[0]] + seq![s[m]] + tiles(s.subrange(m + 1, s.len() as int)) =~= seq![s[0]]
            + (seq![s[m]] + tiles(s.subrange(m + 1, s.len() as int))));
    }
}

/// Index of the first tile of `line` at or after `from`.
fn next_tile_index(line: &BoardLine, from: usize) -> (r: Option<usize>)
    requires
        from <= 4,
    ensures
        match r {
            Some(n) => from <= n < 4 && line[n as int] != 0 && forall|k: int|
                from <= k < n ==> line[k] == 0,
            None => forall|k: int| from <= k < 4 ==> line[k] == 0,
        },
{
    let mut i: usize = from;
    while i < 4
        invariant
            from <= i <= 4,
            forall|k: int| from <= k < i ==> line[k] == 0,
        decreases 4 - i,
    {
        if line[i] != 0 {
            return Some(i);
        }
        i = i + 1;
    }
    None
}

/// What a pass of the cursor at `idx` over `cur` keeps: the cells before the
/// cursor are final, and the rest still merges to the remaining output.
pub open spec fn squash_progress(orig: Seq<u16>, cur: Seq<u16>, idx: int) -> bool {
    &&& 0 <= idx < 4
    &&& cur.len() == 4
    &&& merged(tiles(orig)) == cur.subrange(0, idx) + merged(tiles(cur.subrange(idx, 4)))
    &&& forall|k: int| idx <= k < 4 ==> cur[k] < 0x8000
}

/// The tiles after the cursor, which bound the slides still to come.
pub open spec fn pending(cur: Seq<u16>, idx: int) -> nat {
    tiles(cur.subrange(idx + 1, 4)).len()
}

proof fn lemma_squash_done(orig: Seq<u16>, cur: Seq<u16>, idx: int)
    requires
        orig.len() == 4,
        squash_progress(orig, cur, idx),
        forall|k: int| idx < k < 4 ==> cur[k] == 0,
    ensures
        cur == slid_left(orig),
{
    let s = cur.subrange(idx, 4);
    lemma_tiles_zeros(s.drop_first());
    let head = if s[0] == 0 {
        Seq::<u16>::empty()
    } else {
        seq![s[0]]
    };
    assert(tiles(s) == head + tiles(s.drop_first()));
    assert(tiles(s) =~= head);
    assert(merged(head) == head);
    assert(cur =~= slid_left(orig));
}

proof fn lemma_squash_slide(orig: Seq<u16>, cur: Seq<u16>, idx: int, n: int)
    requires
        squash_progress(orig, cur, idx),
        idx < n < 4,
        cur[idx] == 0,
        cur[n] != 0,
        forall|k: int| idx < k < n ==> cur[k] == 0,
    ensures
        squash_progress(orig, cur.update(idx, cur[n]).update(n, 0), idx),
        pending(cur.update(idx, cur[n]).update(n, 0), idx) < pending(cur, idx),
{
    let next = cur.update(idx, cur[n]).update(n, 0);
    let s = cur.subrange(idx, 4);
    let m = n - idx;
    lemma_tiles_gap(s, m);
    let rest = cur.subrange(n + 1, 4);
    assert(s.subrange(m + 1, 4 - idx) =~= rest);
    let s2 = next.subrange(idx, 4);
    assert(s2.drop_first().subrange(m, s2.len() - 1) =~= rest);
    lemma_tiles_skip_zeros(s2.drop_first(), m);
    assert(tiles(s2) == seq![cur[n]] + tiles(s2.drop_first()));
    assert(tiles(s2) =~= tiles(s));
    assert(next.subrange(0, idx) =~= cur.subrange(0, idx));
    let t_old = cur.subrange(idx + 1, 4);
    let t_new = next.subrange(idx + 1, 4);
    lemma_tiles_skip_zeros(t_old, m - 1);
    lemma_tiles_skip_zeros(t_new, m);
    let u = t_old.subrange(m - 1, t_old.len() as int);
    assert(u =~= cur.subrange(n, 4));
    assert(u.drop_first() =~= rest);
    assert(tiles(u) == seq![cur[n]] + tiles(u.drop_first()));
    assert(t_new.subrange(m, t_new.len() as int) =~= rest);
}

proof fn lemma_squash_merge(orig: Seq<u16>, cur: Seq<u16>, idx: int, n: int)
    requires
        squash_progress(orig, cur, idx),
        idx < n < 4,
        cur[idx] != 0,
        cur[idx] == cur[n],
        forall|k: int| idx < k < n ==> cur[k] == 0,
    ensures
        squash_progress(orig, cur.update(idx, (2 * cur[idx]) as u16).update(n, 0), idx + 1),
{
    let next = cur.update(idx, (2 * cur[idx]) as u16).update(n, 0);
    let s = cur.subrange(idx, 4);
    let m = n - idx;
    lemma_tiles_gap(s, m);
    let rest = cur.subrange(n + 1, 4);
    assert(s.subrange(m + 1, 4 - idx) =~= rest);
    let tl = seq![cur[idx]] + seq![cur[n]] + tiles(rest);
    assert(tiles(s) == tl);
    assert(tl.subrange(2, tl.len() as int) =~= tiles(rest));
    assert(merged(tl) == seq![(2 * cur[idx]) as u16] + merged(tiles(rest)));
    let s2 = next.subrange(idx + 1, 4);
    lemma_tiles_skip_zeros(s2, m);
    assert(s2.subrange(m, s2.len() as int) =~= rest);
    assert(next.subrange(0, idx + 1) =~= cur.subrange(0, idx) + seq![(2 * cur[idx]) as u16]);
    assert(cur.subrange(0, idx) + (seq![(2 * cur[idx]) as u16] + merged(tiles(rest))) =~= (
    cur.subrange(0, idx) + seq![(2 * cur[idx]) as u16]) + merged(tiles(rest)));
}

proof fn lemma_squash_keep(orig: Seq<u16>, cur: Seq<u16>, idx: int, n: int)
    requires
        squash_progress(orig, cur, idx),
        idx < n < 4,
        cur[idx] != 0,
        cur[n] != 0,
        cur[idx] != cur[n],
        forall|k: int| idx < k < n ==> cur[k] == 0,
    ensures
        squash_progress(orig, cur, idx + 1),
{
    let s = cur.subrange(idx, 4);
    let m = n - idx;
    lemma_tiles_gap(s, m);
    let rest = cur.subrange(n + 1, 4);
    assert(s.subrange(m + 1, 4 - idx) =~= rest);
    let tl = seq![cur[idx]] + seq![cur[n]] + tiles(rest);
    assert(tiles(s) == tl);
    assert(tl.drop_first() =~= seq![cur[n]] + tiles(rest));
    let s2 = cur.subrange(idx + 1, 4);
    lemma_tiles_skip_zeros(s2, m - 1);
    let u = s2.subrange(m - 1, s2.len() as int);
    assert(u.drop_first() =~= rest);
    assert(tiles(u) == seq![cur[n]] + tiles(u.drop_first()));
    assert(cur.subrange(0, idx + 1) =~= cur.subrange(0, idx) + seq![cur[idx]]);
    assert(tiles(s2) == tiles(u));
    assert(merged(tl) == seq![cur[idx]] + merged(tl.drop_first()));
    assert(cur.subrange(0, idx) + (seq![cur[idx]] + merged(tiles(u))) =~= (cur.subrange(0, idx)
        + seq![cur[idx]]) + merged(tiles(u)));
}

/// Moves the tiles of `line` towards its first cell, merging equal neighbours
/// once each, the pair nearest the first cell first.
pub fn squash_line(line: &mut BoardLine)
    requires
        doubles_fit(old(line)@),
    ensures
        final(line)@ == slid_left(old(line)@),
{
    let ghost orig = line@;
    let mut idx: usize = 0;
    assert(line@.subrange(0, 4) =~= orig);
    assert(line@.subrange(0, 0) + merged(tiles(orig)) =~= merged(tiles(orig)));
    loop
        invariant
            orig.len() == 4,
            squash_progress(orig, line@, idx as int),
        ensures
            line@ == slid_left(orig),
        decreases (4 - idx) * 8 + pending(line@, idx as int),
    {
        let ghost before = line@;
        match next_tile_index(line, idx + 1) {
            None => {
                proof {
                    lemma_squash_done(orig, line@, idx as int);
                }
                break ;
            },
            Some(n) => {
                if line[idx] == 0 {
                    line[idx] = line[n];
                    line[n] = 0;
                    proof {
                        lemma_squash_slide(orig, before, idx as int, n as int);
                        assert(line@ =~= before.update(idx as int, before[n as int]).update(
                            n as int,
                            0,
                        ));
                    }
                } else {
                    if line[idx] == line[n] {
                        line[idx] = line[idx] * 2;
                        line[n] = 0;
                        proof {
                            lemma_squash_merge(orig, before, idx as int, n as int);
                            assert(line@ =~= before.update(
                                idx as int,
                                (2 * before[idx as int]) as u16,
                            ).update(n as int, 0));
                        }
                    } else {
                        proof {
                            lemma_squash_keep(orig, before, idx as int, n as int);
                        }
                    }
                    proof {
                        lemma_tiles_len(line@.subrange(idx as int + 2, 4));
                    }
                    idx = idx + 1;
                }
            },
        }
    }
}

proof fn lemma_tiles_add(a: Seq<u16>, b: Seq<u16>)
    ensures
        tiles(a + b) == tiles(a) + tiles(b),
    decreases a.len(),
{
    if a.len() == 0 {
        assert(a + b =~= b);
        assert(tiles(a) + tiles(b) =~= tiles(b));
    } else {
        assert((a + b).drop_first() =~= a.drop_first() + b);
        lemma_tiles_add(a.drop_first(), b);
        if a[0] != 0 {
            assert(seq![a[0]] + (tiles(a.drop_first()) + tiles(b)) =~= (seq![a[0]] + tiles(
                a.drop_first(),
            )) + tiles(b));
        }
    }
}

pub(crate) proof fn lemma_total_add(a: Seq<u16>, b: Seq<u16>)
    ensures
        total(a + b) == total(a) + total(b),
    decreases a.len(),
{
    if a.len() == 0 {
        assert(a + b =~= b);
    } else {
        assert((a + b).drop_first() =~= a.drop_first() + b);
        lemma_total_add(a.drop_first(), b);
    }
}

pub(crate) proof fn lemma_total_zeros(s: Seq<u16>)
    requires
        forall|k: int| 0 <= k < s.len() ==> s[k] == 0,
    ensures
        total(s) == 0,
    decreases s.len(),
{
    if s.len() > 0 {
        lemma_total_zeros(s.drop_first());
    }
}

pub(crate) proof fn lemma_single(x: u16)
    ensures
        total(seq![x]) == x,
        tiles(seq![x]) == (if x == 0 {
            Seq::<u16>::empty()
        } else {
            seq![x]
        }),
{
    let s = seq![x];
    assert(s.drop_first() =~= Seq::<u16>::empty());
    assert(total(s.drop_first()) == 0);
    assert(tiles(s.drop_first()) == s.drop_first());
    assert(s + s.drop_first() =~= s);
}

proof fn lemma_total_tiles(s: Seq<u16>)
    ensures
        total(tiles(s)) == total(s),
    decreases s.len(),
{
    if s.len() > 0 {
        lemma_total_tiles(s.drop_first());
        if s[0] != 0 {
            lemma_total_add(seq![s[0]], tiles(s.drop_first()));
            lemma_single(s[0]);
        }
    }
}

/// The tiles of a row are its non-zero values, each taken from the row.
proof fn lemma_tiles_values(s: Seq<u16>)
    ensures
        forall|k: int| 0 <= k < tiles(s).len() ==> tiles(s)[k] != 0,
        doubles_fit(s) ==> doubles_fit(tiles(s)),
    decreases s.len(),
{
    if s.len() > 0 {
        lemma_tiles_values(s.drop_first());
        if s[0] != 0 {
            let t = tiles(s.drop_first());
            assert forall|k: int| 0 <= k < tiles(s).len() implies tiles(s)[k] != 0 by {
                if k > 0 {
                    assert(tiles(s)[k] == t[k - 1]);
                }
            }
            if doubles_fit(s) {
                assert(doubles_fit(s.drop_first()));
                assert forall|k: int| 0 <= k < tiles(s).len() implies tiles(s)[k] < 0x8000 by {
                    if k > 0 {
                        assert(tiles(s)[k] == t[k - 1]);
                    }
                }
            }
        } else if doubles_fit(s) {
            assert(doubles_fit(s.drop_first()));
        }
    }
}

/// Merging keeps the sum, and on non-zero values that can be doubled yields
/// only non-zero values.
proof fn lemma_merged_values(t: Seq<u16>)
    requires
        doubles_fit(t),
        forall|k: int| 0 <= k < t.len() ==> t[k] != 0,
    ensures
        total(merged(t)) == total(t),
        forall|k: int| 0 <= k < merged(t).len() ==> merged(t)[k] != 0,
        merged(t).len() <= t.len(),
    decreases t.len(),
{
    if t.len() >= 2 {
        if t[0] == t[1] {
            let r = t.subrange(2, t.len() as int);
            lemma_merged_values(r);
            lemma_total_add(seq![(2 * t[0]) as u16], merged(r));
            lemma_single((2 * t[0]) as u16);
            assert(t.drop_first().drop_first() =~= r);
            assert(total(t.drop_first()) == t[1] + total(r));
            assert(merged(t)[0] != 0);
            assert forall|k: int| 0 <= k < merged(t).len() implies merged(t)[k] != 0 by {
                if k > 0 {
                    assert(merged(t)[k] == merged(r)[k - 1]);
                }
            }
        } else {
            let r = t.drop_first();
            lemma_merged_values(r);
            lemma_total_add(seq![t[0]], merged(r));
            lemma_single(t[0]);
            assert forall|k: int| 0 <= k < merged(t).len() implies merged(t)[k] != 0 by {
                if k > 0 {
                    assert(merged(t)[k] == merged(r)[k - 1]);
                }
            }
        }
    } else if t.len() == 1 {
        assert(t.drop_first().len() == 0);
    }
}

proof fn lemma_tiles_nonzero(t: Seq<u16>)
    requires
        forall|k: int| 0 <= k < t.len() ==> t[k] != 0,
    ensures
        tiles(t) == t,
    decreases t.len(),
{
    if t.len() > 0 {
        lemma_tiles_nonzero(t.drop_first());
        assert(seq![t[0]] + t.drop_first() =~= t);
    }
}

proof fn lemma_merged_no_equal(t: Seq<u16>)
    requires
        no_equal_neighbours(t),
    ensures
        merged(t) == t,
    decreases t.len(),
{
    if t.len() >= 2 {
        assert(t[0] != t[1]);
        let r = t.drop_first();
        assert forall|k: int| 0 <= k < r.len() - 1 implies #[trigger] r[k] != r[k + 1] by {
            assert(t[k + 1] != t[k + 2]);
        }
        lemma_merged_no_equal(r);
        assert(seq![t[0]] + r =~= t);
    }
}

proof fn lemma_reverse_add(a: Seq<u16>, b: Seq<u16>)
    ensures
        (a + b).reverse() == b.reverse() + a.reverse(),
{
    assert((a + b).reverse() =~= b.reverse() + a.reverse());
}

proof fn lemma_tiles_reverse(s: Seq<u16>)
    ensures
        tiles(s.reverse()) == tiles(s).reverse(),
    decreases s.len(),
{
    if s.len() > 0 {
        let d = s.drop_last();
        let l = seq![s[s.len() - 1]];
        assert(d + l =~= s);
        lemma_tiles_reverse(d);
        lemma_reverse_add(d, l);
        lemma_tiles_add(l.reverse(), d.reverse());
        lemma_tiles_add(d, l);
        lemma_reverse_add(tiles(d), tiles(l));
        assert(l.reverse() =~= l);
        lemma_single(s[s.len() - 1]);
        assert(tiles(l).reverse() =~= tiles(l));
    } else {
        assert(s.reverse() =~= s);
    }
}

proof fn lemma_total_reverse(s: Seq<u16>)
    ensures
        total(s.reverse()) == total(s),
    decreases s.len(),
{
    if s.len() > 0 {
        let d = s.drop_last();
        let l = seq![s[s.len() - 1]];
        assert(d + l =~= s);
        lemma_total_reverse(d);
        lemma_reverse_add(d, l);
        lemma_total_add(l.reverse(), d.reverse());
        lemma_total_add(d, l);
        assert(l.reverse() =~= l);
        lemma_single(s[s.len() - 1]);
    } else {
        assert(s.reverse() =~= s);
    }
}

/// The result of `slid_left` depends only on the tiles of the row and its length.
proof fn lemma_slid_left_by_tiles(a: Seq<u16>, b: Seq<u16>)
    requires
        a.len() == b.len(),
        tiles(a) == tiles(b),
    ensures
        slid_left(a) == slid_left(b),
{
}

/// The tiles and the sum after a move to the left.
proof fn lemma_slid_left_values(row: Seq<u16>)
    requires
        doubles_fit(row),
    ensures
        tiles(slid_left(row)) == merged(tiles(row)),
        total(slid_left(row)) == total(row),
        slid_left(row).len() == row.len(),
{
    let t = tiles(row);
    lemma_tiles_values(row);
    lemma_merged_values(t);
    lemma_tiles_len(row);
    let z = Seq::new((row.len() - merged(t).len()) as nat, |i: int| 0u16);
    lemma_tiles_add(merged(t), z);
    lemma_tiles_zeros(z);
    lemma_tiles_nonzero(merged(t));
    assert(merged(t) + Seq::<u16>::empty() =~= merged(t));
    lemma_total_add(merged(t), z);
    lemma_total_zeros(z);
    lemma_total_tiles(row);
}

/// A move, in either direction, keeps the non-zero values of a row but for
/// merged pairs, each of which becomes one tile of twice the value; so the sum
/// of the row never changes. Towards the first cell the tiles that come out are
/// those of the row merged pairwise from the front; towards the last cell,
/// merged pairwise from the back.
pub proof fn lemma_move_keeps_values(row: Seq<u16>)
    requires
        doubles_fit(row),
    ensures
        tiles(slid_left(row)) == merged(tiles(row)),
        tiles(slid_right(row)) == merged(tiles(row).reverse()).reverse(),
        total(slid_left(row)) == total(row),
        total(slid_right(row)) == total(row),
{
    lemma_slid_left_values(row);
    let r = row.reverse();
    assert(doubles_fit(r));
    lemma_slid_left_values(r);
    lemma_tiles_reverse(row);
    lemma_tiles_reverse(slid_left(r));
    lemma_total_reverse(slid_left(r));
    lemma_total_reverse(row);
}

/// On a row where no two tiles can merge, a move to the left keeps the tiles in
/// their order, and a move to the right after it gives the same row as a move
/// to the right alone: only the empty cells are moved.
pub proof fn lemma_left_then_right(row: Seq<u16>)
    requires
        no_equal_neighbours(tiles(row)),
    ensures
        tiles(slid_left(row)) == tiles(row),
        slid_right(slid_left(row)) == slid_right(row),
        tiles(slid_right(slid_left(row))) == tiles(row),
{
    let t = tiles(row);
    lemma_merged_no_equal(t);
    lemma_tiles_values(row);
    lemma_tiles_len(row);
    let z = Seq::new((row.len() - t.len()) as nat, |i: int| 0u16);
    lemma_tiles_add(t, z);
    lemma_tiles_zeros(z);
    lemma_tiles_nonzero(t);
    assert(t + Seq::<u16>::empty() =~= t);
    let l = slid_left(row);
    lemma_tiles_reverse(l);
    lemma_tiles_reverse(row);
    lemma_slid_left_by_tiles(l.reverse(), row.reverse());
    // the tiles of the reversed row cannot merge either
    let tr = t.reverse();
    assert forall|k: int| 0 <= k < tr.len() - 1 implies #[trigger] tr[k] != tr[k + 1] by {
        assert(t[t.len() - 1 - k] != t[t.len() - 1 - k - 1]);
    }
    lemma_merged_no_equal(tr);
    let r = slid_left(row.reverse());
    lemma_tiles_values(row.reverse());
    lemma_tiles_len(row.reverse());
    let z2 = Seq::new((row.len() - tr.len()) as nat, |i: int| 0u16);
    lemma_tiles_nonzero(tr);
    lemma_tiles_add(tr, z2);
    lemma_tiles_zeros(z2);
    assert(tr + Seq::<u16>::empty() =~= tr);
    lemma_tiles_reverse(r);
    assert(tr.reverse() =~= t);
}

} // verus!
