//! Character-level text operations on lines, each with its exact meaning as
//! a spec function.

use vstd::prelude::*;

verus! {

/// Whether `c` has the Unicode `White_Space` property (what
/// `char::is_whitespace` tests).
pub open spec fn is_white(c: char) -> bool {
    let u = c as u32;
    (0x9 <= u && u <= 0xd) || u == 0x20 || u == 0x85 || u == 0xa0 || u == 0x1680
        || (0x2000 <= u && u <= 0x200a) || u == 0x2028 || u == 0x2029 || u == 0x202f
        || u == 0x205f || u == 0x3000
}

/// `s` without its leading white space.
pub open spec fn trim_start(s: Seq<char>) -> Seq<char>
    decreases s.len(),
{
    if s.len() > 0 && is_white(s[0]) {
        trim_start(s.drop_first())
    } else {
        s
    }
}

/// `s` without its trailing white space.
pub open spec fn trim_end(s: Seq<char>) -> Seq<char>
    decreases s.len(),
{
    if s.len() > 0 && is_white(s.last()) {
        trim_end(s.drop_last())
    } else {
        s
    }
}

/// `s` without white space at either end.
pub open spec fn trim(s: Seq<char>) -> Seq<char> {
    trim_end(trim_start(s))
}

/// The characters of `s` that are not white space, in order.
pub open spec fn ink(s: Seq<char>) -> Seq<char>
    decreases s.len(),
{
    if s.len() == 0 {
        s
    } else if is_white(s.last()) {
        ink(s.drop_last())
    } else {
        ink(s.drop_last()).push(s.last())
    }
}

/// How many times `c` occurs in `s`.
pub open spec fn count_of(s: Seq<char>, c: char) -> nat
    decreases s.len(),
{
    if s.len() == 0 {
        0
    } else {
        count_of(s.drop_last(), c) + if s.last() == c { 1nat } else { 0nat }
    }
}

/// Whether `pat` occurs in `s` starting at position `i`.
pub open spec fn occurs_at(s: Seq<char>, i: int, pat: Seq<char>) -> bool {
    0 <= i && i + pat.len() <= s.len() && s.subrange(i, i + pat.len()) == pat
}

/// Whether `pat` occurs anywhere in `s`.
pub open spec fn contains(s: Seq<char>, pat: Seq<char>) -> bool {
    exists|i: int| occurs_at(s, i, pat)
}

/// What `char::is_alphanumeric` answers for `c`.
pub uninterp spec fn alphanumeric(c: char) -> bool;

/// Whether `c` can continue an identifier: alphanumeric or `_`.
pub open spec fn is_ident_char(c: char) -> bool {
    alphanumeric(c) || c == '_'
}

/// Whether `pat` occurs at position `i` of `s` as the start of a path
/// segment: at the start of `s`, or right after a character that cannot
/// continue an identifier.
pub open spec fn token_at(s: Seq<char>, i: int, pat: Seq<char>) -> bool {
    pat.len() > 0 && occurs_at(s, i, pat) && (i == 0 || !is_ident_char(s[i - 1]))
}

/// `s` from position `i` on, with every occurrence of `pat` that starts a
/// path segment replaced by `rep`, left to right without overlaps.
pub open spec fn replace_tokens_from(
    s: Seq<char>,
    i: int,
    pat: Seq<char>,
    rep: Seq<char>,
) -> Seq<char>
    decreases s.len() - i,
{
    if i < 0 || i >= s.len() {
        Seq::empty()
    } else if token_at(s, i, pat) {
        rep + replace_tokens_from(s, i + pat.len(), pat, rep)
    } else {
        seq![s[i]] + replace_tokens_from(s, i + 1, pat, rep)
    }
}

/// `s` with every occurrence of `pat` that starts a path segment replaced by
/// `rep`; an occurrence that merely ends a longer identifier stays.
pub open spec fn replace_tokens(s: Seq<char>, pat: Seq<char>, rep: Seq<char>) -> Seq<char> {
    replace_tokens_from(s, 0, pat, rep)
}

/// `n` tab characters.
pub open spec fn tabs(n: nat) -> Seq<char>
    decreases n,
{
    if n == 0 {
        Seq::empty()
    } else {
        tabs((n - 1) as nat).push('\t')
    }
}

/// The lines joined by single spaces.
pub open spec fn join_space(lines: Seq<Seq<char>>) -> Seq<char>
    decreases lines.len(),
{
    if lines.len() == 0 {
        Seq::empty()
    } else if lines.len() == 1 {
        lines[0]
    } else {
        join_space(lines.drop_last()) + seq![' '] + lines.last()
    }
}

/// The lines written one after another with nothing between them.
pub open spec fn flatten(lines: Seq<Seq<char>>) -> Seq<char>
    decreases lines.len(),
{
    if lines.len() == 0 {
        Seq::empty()
    } else {
        flatten(lines.drop_last()) + lines.last()
    }
}

/// Each line with white space removed from both ends.
pub open spec fn trim_lines(lines: Seq<Seq<char>>) -> Seq<Seq<char>> {
    lines.map_values(|l: Seq<char>| trim(l))
}

proof fn lemma_ink_append(a: Seq<char>, b: Seq<char>)
    ensures
        ink(a + b) == ink(a) + ink(b),
    decreases b.len(),
{
    if b.len() == 0 {
        assert(a + b =~= a);
        assert(ink(a) + ink(b) =~= ink(a));
    } else {
        lemma_ink_append(a, b.drop_last());
        assert((a + b).drop_last() =~= a + b.drop_last());
        assert((a + b).last() == b.last());
        if is_white(b.last()) {
        } else {
            assert(ink(a) + ink(b.drop_last()).push(b.last()) =~= (ink(a) + ink(
                b.drop_last(),
            )).push(b.last()));
        }
    }
}

proof fn lemma_ink_trim_start(s: Seq<char>)
    ensures
        ink(trim_start(s)) == ink(s),
    decreases s.len(),
{
    if s.len() > 0 && is_white(s[0]) {
        lemma_ink_trim_start(s.drop_first());
        assert(s =~= seq![s[0]] + s.drop_first());
        lemma_ink_append(seq![s[0]], s.drop_first());
        assert(seq![s[0]].drop_last() =~= Seq::<char>::empty());
        assert(seq![s[0]].last() == s[0]);
        assert(ink(seq![s[0]]) == ink(Seq::<char>::empty()));
        assert(ink(seq![s[0]]) =~= Seq::<char>::empty());
        assert(ink(seq![s[0]]) + ink(s.drop_first()) =~= ink(s.drop_first()));
    }
}

proof fn lemma_ink_trim_end(s: Seq<char>)
    ensures
        ink(trim_end(s)) == ink(s),
    decreases s.len(),
{
    if s.len() > 0 && is_white(s.last()) {
        lemma_ink_trim_end(s.drop_last());
    }
}

/// Trimming removes white space only: the other characters stay, in order.
pub proof fn lemma_ink_trim(s: Seq<char>)
    ensures
        ink(trim(s)) == ink(s),
{
    lemma_ink_trim_end(trim_start(s));
    lemma_ink_trim_start(s);
}

/// Joining trimmed lines by spaces keeps every character that is not white
/// space, in order, and adds none: the joined line and the lines written one
/// after another hold the same non-white characters.
pub proof fn lemma_join_trimmed_keeps_ink(lines: Seq<Seq<char>>)
    ensures
        ink(join_space(trim_lines(lines))) == ink(flatten(lines)),
    decreases lines.len(),
{
    let t = trim_lines(lines);
    if lines.len() == 0 {
        assert(ink(flatten(lines)) =~= Seq::<char>::empty());
    } else if lines.len() == 1 {
        lemma_ink_trim(lines[0]);
        assert(flatten(lines.drop_last()) =~= Seq::<char>::empty());
        assert(flatten(lines) =~= lines[0]);
    } else {
        lemma_join_trimmed_keeps_ink(lines.drop_last());
        assert(t.drop_last() =~= trim_lines(lines.drop_last()));
        lemma_ink_trim(lines.last());
        let j = join_space(t.drop_last());
        lemma_ink_append(j + seq![' '], t.last());
        lemma_ink_append(j, seq![' ']);
        assert(seq![' '].drop_last() =~= Seq::<char>::empty());
        assert(seq![' '].last() == ' ');
        assert(is_white(' '));
        assert(ink(seq![' ']) == ink(Seq::<char>::empty()));
        assert(ink(seq![' ']) =~= Seq::<char>::empty());
        assert(ink(j) + ink(seq![' ']) =~= ink(j));
        lemma_ink_append(flatten(lines.drop_last()), lines.last());
    }
}

/// The maximal runs of characters that are not white space, in order.
pub open spec fn words(s: Seq<char>) -> Seq<Seq<char>>
    decreases s.len(),
{
    if s.len() == 0 {
        Seq::empty()
    } else {
        let w = words(s.drop_last());
        let c = s.last();
        if is_white(c) {
            w
        } else if s.len() >= 2 && !is_white(s[s.len() - 2]) && w.len() > 0 {
            w.drop_last().push(w.last().push(c))
        } else {
            w.push(seq![c])
        }
    }
}

/// The words of each line, one line after another.
pub open spec fn all_words(lines: Seq<Seq<char>>) -> Seq<Seq<char>>
    decreases lines.len(),
{
    if lines.len() == 0 {
        Seq::empty()
    } else {
        all_words(lines.drop_last()) + words(lines.last())
    }
}

proof fn lemma_words_nonempty(s: Seq<char>)
    requires
        s.len() > 0,
        !is_white(s.last()),
    ensures
        words(s).len() > 0,
    decreases s.len(),
{
}

proof fn lemma_words_split(a: Seq<char>, w: char, b: Seq<char>)
    requires
        is_white(w),
    ensures
        words(a.push(w) + b) == words(a) + words(b),
    decreases b.len(),
{
    let l = a.push(w);
    if b.len() == 0 {
        assert(l + b =~= l);
        assert(l.drop_last() =~= a);
        assert(words(a) + words(b) =~= words(a));
    } else {
        let b1 = b.drop_last();
        let c = b.last();
        lemma_words_split(a, w, b1);
        let s = l + b;
        assert(s.drop_last() =~= l + b1);
        assert(s.last() == c);
        if is_white(c) {
        } else if b1.len() > 0 && !is_white(b1.last()) {
            assert(s[s.len() - 2] == b1.last());
            lemma_words_nonempty(b1);
            assert(b[b.len() - 2] == b1.last());
            let wa = words(a);
            let wb = words(b1);
            assert((wa + wb).drop_last().push((wa + wb).last().push(c)) =~= wa + wb.drop_last()
                .push(wb.last().push(c)));
        } else {
            if b1.len() > 0 {
                assert(s[s.len() - 2] == b1.last());
                assert(b[b.len() - 2] == b1.last());
            } else {
                assert(s[s.len() - 2] == w);
            }
            assert((words(a) + words(b1)).push(seq![c]) =~= words(a) + words(b1).push(seq![c]));
        }
    }
}

proof fn lemma_words_trim_start(s: Seq<char>)
    ensures
        words(trim_start(s)) == words(s),
    decreases s.len(),
{
    if s.len() > 0 && is_white(s[0]) {
        lemma_words_trim_start(s.drop_first());
        lemma_words_split(Seq::empty(), s[0], s.drop_first());
        assert(Seq::<char>::empty().push(s[0]) + s.drop_first() =~= s);
        assert(Seq::<Seq<char>>::empty() + words(s.drop_first()) =~= words(s.drop_first()));
    }
}

proof fn lemma_words_trim_end(s: Seq<char>)
    ensures
        words(trim_end(s)) == words(s),
    decreases s.len(),
{
    if s.len() > 0 && is_white(s.last()) {
        lemma_words_trim_end(s.drop_last());
    }
}

/// Joining trimmed lines by single spaces neither merges, splits, adds nor
/// removes a word: the joined line holds exactly the words of the lines, in
/// order.
pub proof fn lemma_join_trimmed_keeps_words(lines: Seq<Seq<char>>)
    ensures
        words(join_space(trim_lines(lines))) == all_words(lines),
    decreases lines.len(),
{
    let t = trim_lines(lines);
    if lines.len() == 0 {
    } else {
        lemma_words_trim_end(trim_start(lines.last()));
        lemma_words_trim_start(lines.last());
        if lines.len() == 1 {
            assert(all_words(lines.drop_last()) =~= Seq::<Seq<char>>::empty());
            assert(all_words(lines) =~= words(lines[0]));
        } else {
            lemma_join_trimmed_keeps_words(lines.drop_last());
            assert(t.drop_last() =~= trim_lines(lines.drop_last()));
            let j = join_space(t.drop_last());
            assert(j + seq![' '] + t.last() =~= j.push(' ') + t.last());
            assert(is_white(' '));
            lemma_words_split(j, ' ', t.last());
        }
    }
}

/// The characters of `s` in order.
pub(crate) fn chars_of(s: &str) -> (r: Vec<char>)
    ensures
        r@ == s@,
{
    let n = s.unicode_len();
    let mut r: Vec<char> = Vec::new();
    let mut k: usize = 0;
    while k < n
        invariant
            n == s@.len(),
            k <= n,
            r@ == s@.take(k as int),
        decreases n - k,
    {
        r.push(s.get_char(k));
        k = k + 1;
        assert(r@ =~= s@.take(k as int));
    }
    assert(s@.take(n as int) =~= s@);
    r
}

/// Relies on `String`'s `FromIterator<char>`: a string of exactly these characters.
#[verifier::external_body]
pub(crate) fn string_of(v: &Vec<char>) -> (r: String)
    ensures
        r@ == v@,
{
    v.iter().collect()
}

/// Whether `c` is white space, as `char::is_whitespace` decides it.
pub fn char_is_white(c: char) -> (r: bool)
    ensures
        r == is_white(c),
{
    let u = c as u32;
    (0x9 <= u && u <= 0xd) || u == 0x20 || u == 0x85 || u == 0xa0 || u == 0x1680
        || (0x2000 <= u && u <= 0x200a) || u == 0x2028 || u == 0x2029 || u == 0x202f
        || u == 0x205f || u == 0x3000
}

proof fn lemma_trim_start_skip(s: Seq<char>, i: int)
    requires
        0 <= i <= s.len(),
        forall|k: int| 0 <= k < i ==> is_white(s[k]),
    ensures
        trim_start(s) == trim_start(s.skip(i)),
    decreases i,
{
    if i > 0 {
        assert(s.skip(1) =~= s.drop_first());
        lemma_trim_start_skip(s.drop_first(), i - 1);
        assert(s.drop_first().skip(i - 1) =~= s.skip(i));
    } else {
        assert(s.skip(0) =~= s);
    }
}

proof fn lemma_trim_end_take(s: Seq<char>, j: int)
    requires
        0 <= j <= s.len(),
        forall|k: int| j <= k < s.len() ==> is_white(s[k]),
    ensures
        trim_end(s) == trim_end(s.take(j)),
    decreases s.len() - j,
{
    if j < s.len() {
        lemma_trim_end_take(s.drop_last(), j);
        assert(s.drop_last().take(j) =~= s.take(j));
    } else {
        assert(s.take(j) =~= s);
    }
}

/// The characters of `s` with white space removed from both ends.
pub fn trim_chars(s: &Vec<char>) -> (r: Vec<char>)
    ensures
        r@ == trim(s@),
{
    let n = s.len();
    let mut i: usize = 0;
    while i < n && char_is_white(s[i])
        invariant
            i <= n == s@.len(),
            forall|k: int| 0 <= k < i ==> is_white(s@[k]),
        decreases n - i,
    {
        i = i + 1;
    }
    let mut j: usize = n;
    while j > i && char_is_white(s[j - 1])
        invariant
            i <= j <= n == s@.len(),
            forall|k: int| j <= k < n ==> is_white(s@[k]),
        decreases j,
    {
        j = j - 1;
    }
    let mut r: Vec<char> = Vec::new();
    let mut k: usize = i;
    while k < j
        invariant
            i <= k <= j <= n == s@.len(),
            r@ == s@.subrange(i as int, k as int),
        decreases j - k,
    {
        r.push(s[k]);
        k = k + 1;
        assert(r@ =~= s@.subrange(i as int, k as int));
    }
    proof {
        lemma_trim_start_skip(s@, i as int);
        let t = s@.skip(i as int);
        assert(i == n || !is_white(t[0]));
        assert(trim_start(t) == t) by {
            if t.len() > 0 {
                assert(!is_white(t[0]));
            }
        }
        lemma_trim_end_take(t, j - i);
        assert(t.take(j - i) =~= s@.subrange(i as int, j as int));
        let u = s@.subrange(i as int, j as int);
        assert(trim_end(u) == u) by {
            if u.len() > 0 {
                assert(u.last() == s@[j - 1]);
            }
        }
    }
    r
}

/// How many times `c` occurs in `s`.
pub fn count_char(s: &Vec<char>, c: char) -> (r: usize)
    ensures
        r == count_of(s@, c),
{
    let mut r: usize = 0;
    let mut k: usize = 0;
    while k < s.len()
        invariant
            k <= s@.len(),
            r == count_of(s@.take(k as int), c),
            r <= k,
        decreases s.len() - k,
    {
        assert(s@.take(k + 1).drop_last() =~= s@.take(k as int));
        if s[k] == c {
            r = r + 1;
        }
        k = k + 1;
    }
    assert(s@.take(k as int) =~= s@);
    r
}

/// Whether `pat` occurs in `s` at position `i`.
pub fn chars_occur_at(s: &Vec<char>, i: usize, pat: &Vec<char>) -> (r: bool)
    ensures
        r == occurs_at(s@, i as int, pat@),
{
    if i > s.len() || pat.len() > s.len() - i {
        return false;
    }
    let mut k: usize = 0;
    while k < pat.len()
        invariant
            i + pat.len() <= s.len(),
            k <= pat.len(),
            forall|m: int| 0 <= m < k ==> s@[i + m] == pat@[m],
        decreases pat.len() - k,
    {
        let idx: usize = i + k;
        if s[idx] != pat[k] {
            assert(s@.subrange(i as int, i + pat@.len())[k as int] != pat@[k as int]);
            return false;
        }
        k = k + 1;
    }
    assert(s@.subrange(i as int, i + pat@.len()) =~= pat@);
    true
}

/// Whether `pat` occurs anywhere in `s`.
pub fn chars_contain(s: &Vec<char>, pat: &Vec<char>) -> (r: bool)
    ensures
        r == contains(s@, pat@),
{
    if pat.len() == 0 {
        assert(occurs_at(s@, 0, pat@)) by {
            assert(s@.subrange(0, 0) =~= pat@);
        }
        return true;
    }
    let mut i: usize = 0;
    while i < s.len()
        invariant
            i <= s@.len(),
            pat@.len() > 0,
            forall|m: int| 0 <= m < i ==> !occurs_at(s@, m, pat@),
        decreases s.len() - i,
    {
        if chars_occur_at(s, i, pat) {
            return true;
        }
        i = i + 1;
    }
    assert forall|m: int| !occurs_at(s@, m, pat@) by {
        if m >= s@.len() {
            assert(!(m + pat@.len() <= s@.len()));
        }
    }
    false
}

/// Relies on `char::is_alphanumeric`: whether `c` is a letter or a digit.
#[verifier::external_body]
fn char_is_alphanumeric(c: char) -> (r: bool)
    ensures
        r == alphanumeric(c),
{
    c.is_alphanumeric()
}

/// Whether `c` can continue an identifier.
pub fn ident_char(c: char) -> (r: bool)
    ensures
        r == is_ident_char(c),
{
    c == '_' || char_is_alphanumeric(c)
}

/// `s` with every occurrence of `pat` that starts a path segment replaced by
/// `rep`, left to right.
pub fn replace_token(s: &Vec<char>, pat: &Vec<char>, rep: &Vec<char>) -> (r: Vec<char>)
    ensures
        r@ == replace_tokens(s@, pat@, rep@),
{
    let mut r: Vec<char> = Vec::new();
    let mut i: usize = 0;
    assert(r@ + replace_tokens_from(s@, 0, pat@, rep@) =~= replace_tokens(s@, pat@, rep@));
    while i < s.len()
        invariant
            i <= s@.len(),
            r@ + replace_tokens_from(s@, i as int, pat@, rep@) == replace_tokens(s@, pat@, rep@),
        decreases s.len() - i,
    {
        let starts = pat.len() > 0 && chars_occur_at(s, i, pat) && (i == 0 || !ident_char(
            s[i - 1],
        ));
        let ghost before = r@;
        if starts {
            let mut k: usize = 0;
            while k < rep.len()
                invariant
                    k <= rep@.len(),
                    r@ == before + rep@.take(k as int),
                decreases rep.len() - k,
            {
                r.push(rep[k]);
                k = k + 1;
                assert(r@ =~= before + rep@.take(k as int));
            }
            assert(rep@.take(k as int) =~= rep@);
            assert(r@ + replace_tokens_from(s@, i + pat@.len(), pat@, rep@) =~= before + (rep@
                + replace_tokens_from(s@, i + pat@.len(), pat@, rep@)));
            i = i + pat.len();
        } else {
            r.push(s[i]);
            assert(r@ + replace_tokens_from(s@, i + 1, pat@, rep@) =~= before + (seq![s@[i as int]]
                + replace_tokens_from(s@, i + 1, pat@, rep@)));
            i = i + 1;
        }
    }
    assert(r@ + Seq::<char>::empty() =~= r@);
    r
}

} // verus!
