//! What a text denotes as cell rows.
//!
//! An input text is a multi-line string: each non-empty line is one row, top
//! to bottom; each character of a line is one cell, left to right, live
//! exactly where the character equals the designated live marker.  Empty
//! lines are dropped entirely: they become no row and count toward nothing.

use vstd::prelude::*;

verus! {

/// The rows denoted by the text `s` when the row built so far is `cur`:
/// an ordinary character extends the current row with one cell, a line break
/// ends the current row, and a row is kept only if it has at least one cell.
pub open spec fn scan_rows(cur: Seq<bool>, s: Seq<char>, alive: char) -> Seq<Seq<bool>>
    decreases s.len(),
{
    if s.len() == 0 {
        if cur.len() > 0 {
            seq![cur]
        } else {
            Seq::empty()
        }
    } else if s[0] == '\n' {
        if cur.len() > 0 {
            seq![cur] + scan_rows(Seq::empty(), s.skip(1), alive)
        } else {
            scan_rows(Seq::empty(), s.skip(1), alive)
        }
    } else {
        scan_rows(cur.push(s[0] == alive), s.skip(1), alive)
    }
}

/// The cell rows denoted by the whole text: one row per non-empty line.
pub open spec fn parsed_rows(s: Seq<char>, alive: char) -> Seq<Seq<bool>> {
    scan_rows(Seq::empty(), s, alive)
}

/// Every row that a scan yields has at least one cell: empty lines are never
/// kept as rows.
pub proof fn lemma_scan_rows_nonempty(cur: Seq<bool>, s: Seq<char>, alive: char)
    ensures
        forall|j: int|
            0 <= j < scan_rows(cur, s, alive).len() ==> #[trigger] scan_rows(
                cur,
                s,
                alive,
            )[j].len() > 0,
    decreases s.len(),
{
    let r = scan_rows(cur, s, alive);
    if s.len() == 0 {
        if cur.len() > 0 {
            assert(r[0] == cur);
        }
    } else if s[0] == '\n' {
        lemma_scan_rows_nonempty(Seq::empty(), s.skip(1), alive);
        let rest = scan_rows(Seq::empty(), s.skip(1), alive);
        assert forall|j: int| 0 <= j < r.len() implies #[trigger] r[j].len() > 0 by {
            if cur.len() > 0 {
                if j == 0 {
                    assert(r[j] == cur);
                } else {
                    assert(r[j] == rest[j - 1]);
                }
            } else {
                assert(r[j] == rest[j]);
            }
        }
    } else {
        lemma_scan_rows_nonempty(cur.push(s[0] == alive), s.skip(1), alive);
        let rest = scan_rows(cur.push(s[0] == alive), s.skip(1), alive);
        assert forall|j: int| 0 <= j < r.len() implies #[trigger] r[j].len() > 0 by {
            assert(r[j] == rest[j]);
        }
    }
}

/// Unfolds one character of a scan in the middle of a text: the scan of the
/// suffix at `i` is the scan of the suffix at `i + 1` under the row state
/// that the character at `i` leaves behind.
pub proof fn lemma_scan_rows_step(cur: Seq<bool>, s: Seq<char>, i: int, alive: char)
    requires
        0 <= i < s.len(),
    ensures
        s[i] == '\n' && cur.len() > 0 ==> scan_rows(cur, s.skip(i), alive) == seq![cur]
            + scan_rows(Seq::empty(), s.skip(i + 1), alive),
        s[i] == '\n' && cur.len() == 0 ==> scan_rows(cur, s.skip(i), alive) == scan_rows(
            Seq::empty(),
            s.skip(i + 1),
            alive,
        ),
        s[i] != '\n' ==> scan_rows(cur, s.skip(i), alive) == scan_rows(
            cur.push(s[i] == alive),
            s.skip(i + 1),
            alive,
        ),
{
    let t = s.skip(i);
    assert(t.len() == s.len() - i);
    assert(t[0] == s[i]);
    assert(t.skip(1) =~= s.skip(i + 1));
}

/// A doubled line break scans as a single one, whatever row is in progress:
/// the first break ends that row and the second then ends an empty line,
/// which is dropped.
proof fn lemma_scan_rows_double_newline(cur: Seq<bool>, post: Seq<char>, alive: char)
    ensures
        scan_rows(cur, seq!['\n', '\n'] + post, alive) == scan_rows(
            cur,
            seq!['\n'] + post,
            alive,
        ),
{
    let two = seq!['\n', '\n'] + post;
    let one = seq!['\n'] + post;
    assert(two[0] == '\n');
    assert(one[0] == '\n');
    assert(two.skip(1) =~= one);
    assert(one.skip(1) =~= post);
    let e = Seq::<bool>::empty();
    assert(scan_rows(e, one, alive) == scan_rows(e, post, alive));
    if cur.len() > 0 {
        assert(scan_rows(cur, two, alive) == seq![cur] + scan_rows(e, one, alive));
        assert(scan_rows(cur, one, alive) == seq![cur] + scan_rows(e, post, alive));
    } else {
        assert(scan_rows(cur, two, alive) == scan_rows(e, one, alive));
        assert(scan_rows(cur, one, alive) == scan_rows(e, post, alive));
    }
}

/// Blank-line skipping: a blank line between rows contributes nothing, so a
/// text with a doubled line break denotes the same rows as the text with a
/// single one in its place.
pub proof fn lemma_blank_line_skipped(pre: Seq<char>, post: Seq<char>, alive: char)
    ensures
        parsed_rows(pre + seq!['\n', '\n'] + post, alive) == parsed_rows(
            pre + seq!['\n'] + post,
            alive,
        ),
{
    lemma_scan_rows_blank_line(Seq::empty(), pre, post, alive);
}

/// The generalisation of `lemma_blank_line_skipped` over the row in
/// progress, proved by peeling the shared prefix character by character.
proof fn lemma_scan_rows_blank_line(cur: Seq<bool>, pre: Seq<char>, post: Seq<char>, alive: char)
    ensures
        scan_rows(cur, pre + seq!['\n', '\n'] + post, alive) == scan_rows(
            cur,
            pre + seq!['\n'] + post,
            alive,
        ),
    decreases pre.len(),
{
    let two = pre + seq!['\n', '\n'] + post;
    let one = pre + seq!['\n'] + post;
    if pre.len() == 0 {
        assert(two =~= seq!['\n', '\n'] + post);
        assert(one =~= seq!['\n'] + post);
        lemma_scan_rows_double_newline(cur, post, alive);
    } else {
        let c = pre[0];
        assert(two[0] == c);
        assert(one[0] == c);
        assert(two.skip(1) =~= pre.skip(1) + seq!['\n', '\n'] + post);
        assert(one.skip(1) =~= pre.skip(1) + seq!['\n'] + post);
        if c == '\n' {
            if cur.len() > 0 {
                lemma_scan_rows_blank_line(Seq::empty(), pre.skip(1), post, alive);
            } else {
                lemma_scan_rows_blank_line(Seq::empty(), pre.skip(1), post, alive);
            }
        } else {
            lemma_scan_rows_blank_line(cur.push(c == alive), pre.skip(1), post, alive);
        }
    }
}

} // verus!
