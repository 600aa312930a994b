//! Removal of test-only module blocks from a buffer of lines, by matching
//! block openers and counting braces.

use vstd::prelude::*;
use crate::rules::{decoration_line, is_decoration, is_test_opener, rules_compile, test_opener_line};
use crate::text::{chars_of, count_char, count_of};

verus! {

/// The text of each line.
pub open spec fn view_lines(v: Seq<String>) -> Seq<Seq<char>> {
    v.map_values(|s: String| s@)
}

/// Opening braces minus closing braces on a line.
pub open spec fn brace_delta(line: Seq<char>) -> int {
    count_of(line, '{') as int - count_of(line, '}') as int
}

/// Starting at line `j` with `depth` braces open, how many lines after `j`
/// pass before the count returns to zero. Where it never does, the count
/// reaches the end of the buffer: `j` plus the result is then `lines.len()`.
pub open spec fn block_extent(lines: Seq<Seq<char>>, j: int, depth: int) -> nat
    decreases lines.len() - j,
{
    if j < 0 || j >= lines.len() || depth + brace_delta(lines[j]) == 0 {
        0
    } else {
        1 + block_extent(lines, j + 1, depth + brace_delta(lines[j]))
    }
}

/// How many of the kept lines stay when the decoration flagged at their end
/// (attribute and blank lines) is taken off, never going below `floor`.
pub open spec fn keep_len(deco: Seq<bool>, floor: int) -> nat
    decreases deco.len(),
{
    if deco.len() > 0 && deco.len() > floor && deco.last() {
        keep_len(deco.drop_last(), floor)
    } else {
        deco.len()
    }
}

/// The scan of the pruner from line `i`, given for each line whether it opens
/// a test-only module (`opener`) and whether it is decoration (`deco`). The
/// lines kept so far are `out`, with their decoration flags in `out_deco`;
/// kept lines before `floor` end an earlier removed block's reach.
/// `None` where a test-only block never closes.
pub open spec fn prune_scan(
    lines: Seq<Seq<char>>,
    opener: Seq<bool>,
    deco: Seq<bool>,
    i: int,
    out: Seq<Seq<char>>,
    out_deco: Seq<bool>,
    floor: int,
) -> Option<Seq<Seq<char>>>
    decreases lines.len() - i,
{
    if i < 0 || i >= lines.len() {
        Some(out)
    } else if opener[i] {
        let end = i + block_extent(lines, i, 0);
        if end >= lines.len() {
            None
        } else {
            let n = keep_len(out_deco, floor);
            prune_scan(lines, opener, deco, end + 1, out.take(n as int), out_deco.take(n as int), n as int)
        }
    } else {
        prune_scan(lines, opener, deco, i + 1, out.push(lines[i]), out_deco.push(deco[i]), floor)
    }
}

/// `lines` with every block whose opener is flagged removed, together with
/// the flagged decoration lines right before it; `None` where such a block
/// never closes.
pub open spec fn pruned_flagged(
    lines: Seq<Seq<char>>,
    opener: Seq<bool>,
    deco: Seq<bool>,
) -> Option<Seq<Seq<char>>> {
    prune_scan(lines, opener, deco, 0, Seq::empty(), Seq::empty(), 0)
}

/// For each line, whether it opens a test-only module.
pub open spec fn test_openers(lines: Seq<Seq<char>>) -> Seq<bool> {
    Seq::new(lines.len(), |k: int| is_test_opener(lines[k]))
}

/// For each line, whether it is an attribute or blank line.
pub open spec fn decorations(lines: Seq<Seq<char>>) -> Seq<bool> {
    Seq::new(lines.len(), |k: int| is_decoration(lines[k]))
}

/// `lines` with every test-only module block removed, together with the
/// attribute and blank lines right before it; `None` where a test-only block
/// never closes.
pub open spec fn pruned(lines: Seq<Seq<char>>) -> Option<Seq<Seq<char>>> {
    pruned_flagged(lines, test_openers(lines), decorations(lines))
}

proof fn lemma_scan_keeps_all(
    lines: Seq<Seq<char>>,
    opener: Seq<bool>,
    deco: Seq<bool>,
    i: int,
    out_deco: Seq<bool>,
    floor: int,
)
    requires
        0 <= i <= lines.len(),
        forall|k: int| 0 <= k < lines.len() ==> !#[trigger] opener[k],
    ensures
        prune_scan(lines, opener, deco, i, lines.take(i), out_deco, floor) == Some(lines),
    decreases lines.len() - i,
{
    if i < lines.len() {
        assert(lines.take(i).push(lines[i]) =~= lines.take(i + 1));
        lemma_scan_keeps_all(lines, opener, deco, i + 1, out_deco.push(deco[i]), floor);
    } else {
        assert(lines.take(i) =~= lines);
    }
}

/// Where no line is flagged as an opener, pruning leaves the lines as they are.
pub proof fn lemma_prune_flagged_without_openers(
    lines: Seq<Seq<char>>,
    opener: Seq<bool>,
    deco: Seq<bool>,
)
    requires
        forall|k: int| 0 <= k < lines.len() ==> !#[trigger] opener[k],
    ensures
        pruned_flagged(lines, opener, deco) == Some(lines),
{
    assert(lines.take(0) =~= Seq::<Seq<char>>::empty());
    lemma_scan_keeps_all(lines, opener, deco, 0, Seq::empty(), 0);
}

/// Where no line opens a test-only module, pruning leaves the lines as they are.
pub proof fn lemma_prune_without_test_blocks(lines: Seq<Seq<char>>)
    requires
        forall|k: int| 0 <= k < lines.len() ==> !is_test_opener(#[trigger] lines[k]),
    ensures
        pruned(lines) == Some(lines),
{
    let op = test_openers(lines);
    assert forall|k: int| 0 <= k < lines.len() implies !#[trigger] op[k] by {
        assert(op[k] == is_test_opener(lines[k]));
    }
    lemma_prune_flagged_without_openers(lines, op, decorations(lines));
}

proof fn lemma_keep_len_bound(deco: Seq<bool>, floor: int)
    ensures
        keep_len(deco, floor) <= deco.len(),
    decreases deco.len(),
{
    if deco.len() > 0 && deco.len() > floor && deco.last() {
        lemma_keep_len_bound(deco.drop_last(), floor);
    }
}

proof fn lemma_scan_has_no_openers(
    lines: Seq<Seq<char>>,
    deco: Seq<bool>,
    i: int,
    out: Seq<Seq<char>>,
    out_deco: Seq<bool>,
    floor: int,
)
    requires
        out_deco.len() == out.len(),
        forall|k: int| 0 <= k < out.len() ==> !is_test_opener(#[trigger] out[k]),
    ensures
        prune_scan(lines, test_openers(lines), deco, i, out, out_deco, floor) matches Some(r)
            ==> forall|k: int| 0 <= k < r.len() ==> !is_test_opener(#[trigger] r[k]),
    decreases lines.len() - i,
{
    let op = test_openers(lines);
    if 0 <= i < lines.len() {
        assert(op[i] == is_test_opener(lines[i]));
        if op[i] {
            let end = i + block_extent(lines, i, 0);
            if end < lines.len() {
                let n = keep_len(out_deco, floor);
                lemma_keep_len_bound(out_deco, floor);
                let rest = out.take(n as int);
                assert forall|k: int| 0 <= k < rest.len() implies !is_test_opener(
                    #[trigger] rest[k],
                ) by {
                    assert(rest[k] == out[k]);
                }
                lemma_scan_has_no_openers(
                    lines,
                    deco,
                    end + 1,
                    rest,
                    out_deco.take(n as int),
                    n as int,
                );
            }
        } else {
            let o2 = out.push(lines[i]);
            assert forall|k: int| 0 <= k < o2.len() implies !is_test_opener(#[trigger] o2[k]) by {
                if k < out.len() {
                    assert(o2[k] == out[k]);
                }
            }
            lemma_scan_has_no_openers(lines, deco, i + 1, o2, out_deco.push(deco[i]), floor);
        }
    }
}

/// Pruning twice gives what pruning once gives: no line that survives the
/// first pass opens a test-only module.
pub proof fn lemma_prune_idempotent(lines: Seq<Seq<char>>)
    ensures
        pruned(lines) matches Some(once) ==> pruned(once) == Some(once),
{
    lemma_scan_has_no_openers(lines, decorations(lines), 0, Seq::empty(), Seq::empty(), 0);
    if let Some(once) = pruned(lines) {
        lemma_prune_without_test_blocks(once);
    }
}

/// The last line of the block whose opener stands at line `i`: the first
/// line from `i` on where the brace count returns to zero, or `lines.len()`
/// where it never does.
pub fn block_end(lines: &Vec<String>, i: usize) -> (e: usize)
    requires
        i < lines@.len(),
    ensures
        e == i + block_extent(view_lines(lines@), i as int, 0),
        i <= e <= lines@.len(),
{
    let ghost v = view_lines(lines@);
    let n = lines.len();
    let mut j: usize = i;
    let mut opens: u128 = 0;
    let mut closes: u128 = 0;
    while j < n
        invariant
            i <= j <= n == lines@.len() == v.len(),
            v == view_lines(lines@),
            opens <= (j - i) as int * 0xffff_ffff_ffff_ffff,
            closes <= (j - i) as int * 0xffff_ffff_ffff_ffff,
            block_extent(v, i as int, 0) == (j - i) + block_extent(
                v,
                j as int,
                opens - closes,
            ),
        decreases n - j,
    {
        let cs = chars_of(lines[j].as_str());
        let o = count_char(&cs, '{');
        let c = count_char(&cs, '}');
        proof {
            let k = (j - i) as int;
            assert(k + 1 <= 0xffff_ffff_ffff_ffff);
            assert(k * 0xffff_ffff_ffff_ffff + 0xffff_ffff_ffff_ffff == (k + 1)
                * 0xffff_ffff_ffff_ffff) by (nonlinear_arith);
            assert((k + 1) * 0xffff_ffff_ffff_ffff <= 0xffff_ffff_ffff_ffff
                * 0xffff_ffff_ffff_ffff) by (nonlinear_arith)
                requires
                    k + 1 <= 0xffff_ffff_ffff_ffff,
            ;
            assert(v[j as int] == lines@[j as int]@);
        }
        opens = opens + o as u128;
        closes = closes + c as u128;
        if opens == closes {
            return j;
        }
        j = j + 1;
    }
    n
}

/// `lines` with every block whose opener is flagged in `opener` removed,
/// together with the lines flagged in `deco` right before it; `None` where
/// such a block never closes.
pub fn prune_flagged(lines: &Vec<String>, opener: &Vec<bool>, deco: &Vec<bool>) -> (r: Option<
    Vec<String>,
>)
    requires
        opener@.len() == lines@.len(),
        deco@.len() == lines@.len(),
    ensures
        match r {
            Some(kept) => pruned_flagged(view_lines(lines@), opener@, deco@) == Some(
                view_lines(kept@),
            ),
            None => pruned_flagged(view_lines(lines@), opener@, deco@) is None,
        },
{
    let ghost v = view_lines(lines@);
    let n = lines.len();
    let mut out: Vec<String> = Vec::new();
    let mut out_deco: Vec<bool> = Vec::new();
    let mut floor: usize = 0;
    let mut i: usize = 0;
    assert(view_lines(out@) =~= Seq::<Seq<char>>::empty());
    while i < n
        invariant
            i <= n == lines@.len() == v.len() == opener@.len() == deco@.len(),
            v == view_lines(lines@),
            floor <= out@.len() == out_deco@.len(),
            prune_scan(v, opener@, deco@, i as int, view_lines(out@), out_deco@, floor as int)
                == pruned_flagged(v, opener@, deco@),
        decreases n - i,
    {
        if opener[i] {
            let e = block_end(lines, i);
            if e >= n {
                return None;
            }
            let ghost start = view_lines(out@);
            let ghost start_deco = out_deco@;
            while out.len() > floor && out_deco[out_deco.len() - 1]
                invariant
                    floor <= out@.len() == out_deco@.len() <= start.len() == start_deco.len(),
                    view_lines(out@) == start.take(out@.len() as int),
                    out_deco@ == start_deco.take(out_deco@.len() as int),
                    keep_len(out_deco@, floor as int) == keep_len(start_deco, floor as int),
                decreases out.len(),
            {
                let ghost before = view_lines(out@);
                let ghost before_deco = out_deco@;
                out.pop();
                out_deco.pop();
                assert(view_lines(out@) =~= before.drop_last());
                assert(out_deco@ =~= before_deco.drop_last());
                assert(view_lines(out@) =~= start.take(out@.len() as int));
                assert(out_deco@ =~= start_deco.take(out_deco@.len() as int));
            }
            assert(keep_len(out_deco@, floor as int) == out_deco@.len());
            floor = out.len();
            i = e + 1;
        } else {
            let ghost before = view_lines(out@);
            out.push(lines[i].clone());
            out_deco.push(deco[i]);
            assert(view_lines(out@) =~= before.push(v[i as int]));
            i = i + 1;
        }
    }
    Some(out)
}

/// `lines` with every test-only module block removed, or `None` where a
/// test-only block never closes.
pub fn prune_test_blocks(lines: &Vec<String>) -> (r: Option<Vec<String>>)
    requires
        rules_compile(),
    ensures
        match r {
            Some(kept) => pruned(view_lines(lines@)) == Some(view_lines(kept@)),
            None => pruned(view_lines(lines@)) is None,
        },
{
    let ghost v = view_lines(lines@);
    let mut opener: Vec<bool> = Vec::new();
    let mut deco: Vec<bool> = Vec::new();
    let mut k: usize = 0;
    while k < lines.len()
        invariant
            k <= lines@.len() == v.len(),
            v == view_lines(lines@),
            rules_compile(),
            opener@ == test_openers(v).take(k as int),
            deco@ == decorations(v).take(k as int),
        decreases lines.len() - k,
    {
        assert(v[k as int] == lines@[k as int]@);
        opener.push(test_opener_line(lines[k].as_str()));
        deco.push(decoration_line(lines[k].as_str()));
        k = k + 1;
        assert(opener@ =~= test_openers(v).take(k as int));
        assert(deco@ =~= decorations(v).take(k as int));
    }
    assert(opener@ =~= test_openers(v));
    assert(deco@ =~= decorations(v));
    prune_flagged(lines, &opener, &deco)
}

} // verus!
