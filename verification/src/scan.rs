//! Character-level scanner for the annotation grammar.
//!
//! The grammar treats expressions as opaque character runs; the only
//! structure the scanner tracks is the nesting of `(` `[` `{`, double-quoted
//! string literals with backslash escapes, and whether a position sits at
//! the top nesting level. Splitting on top-level commas, finding the
//! top-level `=>`, and recognising a wrapping pair of delimiters are all
//! defined over this one notion of scan state.

use vstd::prelude::*;

verus! {

/// Whitespace the grammar skips between tokens.
pub open spec fn is_space(c: char) -> bool {
    c == ' ' || c == '\t' || c == '\n' || c == '\r'
}

pub open spec fn is_open(c: char) -> bool {
    c == '(' || c == '[' || c == '{'
}

pub open spec fn is_close(c: char) -> bool {
    c == ')' || c == ']' || c == '}'
}

/// The closing delimiter that matches an opening one.
pub open spec fn closer_of(c: char) -> char {
    if c == '(' {
        ')'
    } else if c == '[' {
        ']'
    } else {
        '}'
    }
}

/// Scan state after reading a prefix of the text: the stack of closing
/// delimiters still owed, whether the position is inside a string literal,
/// whether the next character is escaped, and whether a mismatched closing
/// delimiter has been seen.
#[verifier::ext_equal]
pub struct ScanSt {
    pub stack: Seq<char>,
    pub in_str: bool,
    pub esc: bool,
    pub bad: bool,
}

pub open spec fn init_scan() -> ScanSt {
    ScanSt { stack: Seq::empty(), in_str: false, esc: false, bad: false }
}

/// One step of the scanner.
pub open spec fn scan_step(st: ScanSt, c: char) -> ScanSt {
    if st.esc {
        ScanSt { stack: st.stack, in_str: st.in_str, esc: false, bad: st.bad }
    } else if st.in_str {
        if c == '\\' {
            ScanSt { stack: st.stack, in_str: true, esc: true, bad: st.bad }
        } else if c == '"' {
            ScanSt { stack: st.stack, in_str: false, esc: false, bad: st.bad }
        } else {
            st
        }
    } else if c == '"' {
        ScanSt { stack: st.stack, in_str: true, esc: false, bad: st.bad }
    } else if is_open(c) {
        ScanSt { stack: st.stack.push(closer_of(c)), in_str: false, esc: false, bad: st.bad }
    } else if is_close(c) {
        if st.stack.len() > 0 && st.stack.last() == c {
            ScanSt { stack: st.stack.drop_last(), in_str: false, esc: false, bad: st.bad }
        } else {
            ScanSt { stack: st.stack, in_str: false, esc: false, bad: true }
        }
    } else {
        st
    }
}

/// Scan state before the character at index `i`.
pub open spec fn state_upto(s: Seq<char>, i: int) -> ScanSt
    decreases i,
{
    if i <= 0 {
        init_scan()
    } else {
        scan_step(state_upto(s, i - 1), s[i - 1])
    }
}

/// A position at the top nesting level: nothing open, nothing owed.
pub open spec fn at_top(st: ScanSt) -> bool {
    st.stack.len() == 0 && !st.in_str && !st.esc && !st.bad
}

/// The whole text is balanced: every delimiter and string literal closed.
pub open spec fn balanced(s: Seq<char>) -> bool {
    at_top(state_upto(s, s.len() as int))
}

/// Executable scanner holding the state of `scan_step`.
pub struct Scanner {
    pub stack: Vec<char>,
    pub in_str: bool,
    pub esc: bool,
    pub bad: bool,
}

impl View for Scanner {
    type V = ScanSt;

    open spec fn view(&self) -> ScanSt {
        ScanSt { stack: self.stack@, in_str: self.in_str, esc: self.esc, bad: self.bad }
    }
}

impl Scanner {
    pub fn new() -> (r: Self)
        ensures
            r@ == init_scan(),
    {
        let r = Scanner { stack: Vec::new(), in_str: false, esc: false, bad: false };
        proof {
            assert(r@.stack =~= init_scan().stack);
        }
        r
    }

    pub fn at_top(&self) -> (r: bool)
        ensures
            r == at_top(self@),
    {
        self.stack.len() == 0 && !self.in_str && !self.esc && !self.bad
    }

    pub fn step(&mut self, c: char)
        ensures
            final(self)@ == scan_step(old(self)@, c),
    {
        if self.esc {
            self.esc = false;
        } else if self.in_str {
            if c == '\\' {
                self.esc = true;
            } else if c == '"' {
                self.in_str = false;
            }
        } else if c == '"' {
            self.in_str = true;
        } else if c == '(' || c == '[' || c == '{' {
            let close = if c == '(' {
                ')'
            } else if c == '[' {
                ']'
            } else {
                '}'
            };
            self.stack.push(close);
        } else if c == ')' || c == ']' || c == '}' {
            let n = self.stack.len();
            if n > 0 && self.stack[n - 1] == c {
                self.stack.pop();
                proof {
                    assert(self@.stack =~= old(self)@.stack.drop_last());
                }
            } else {
                self.bad = true;
            }
        }
    }
}

/// The segments of `s` between its top-level commas, commas excluded,
/// starting from index `i` with the current segment begun at `start`.
pub open spec fn split_from(s: Seq<char>, i: int, start: int) -> Seq<Seq<char>>
    decreases s.len() - i,
{
    if i < 0 || i >= s.len() {
        seq![s.subrange(start, s.len() as int)]
    } else if at_top(state_upto(s, i)) && s[i] == ',' {
        seq![s.subrange(start, i)] + split_from(s, i + 1, i + 1)
    } else {
        split_from(s, i + 1, start)
    }
}

/// Split on top-level commas. Always yields at least one segment.
pub open spec fn split_top(s: Seq<char>) -> Seq<Seq<char>> {
    split_from(s, 0, 0)
}

/// First index at or after `i` holding a character that is not whitespace.
pub open spec fn lskip(s: Seq<char>, i: int) -> int
    decreases s.len() - i,
{
    if 0 <= i < s.len() && is_space(s[i]) {
        lskip(s, i + 1)
    } else {
        i
    }
}

/// Length of `s` with trailing whitespace removed, counting down from `j`.
pub open spec fn rskip(s: Seq<char>, j: int) -> int
    decreases j,
{
    if 0 < j <= s.len() && is_space(s[j - 1]) {
        rskip(s, j - 1)
    } else {
        j
    }
}

/// `s` without leading and trailing whitespace.
pub open spec fn trim(s: Seq<char>) -> Seq<char> {
    let a = lskip(s, 0);
    let b = rskip(s, s.len() as int);
    if a <= b {
        s.subrange(a, b)
    } else {
        Seq::empty()
    }
}

/// A top-level `=>` whose `=` stands at index `k`.
pub open spec fn arrow_here(s: Seq<char>, k: int) -> bool {
    at_top(state_upto(s, k)) && s[k] == '=' && k + 1 < s.len() && s[k + 1] == '>'
}

/// Index of the `=` of the first top-level `=>` at or after `i`, or the
/// length of `s` when there is none.
pub open spec fn arrow_from(s: Seq<char>, i: int) -> int
    decreases s.len() - i,
{
    if i < 0 || i >= s.len() {
        s.len() as int
    } else if arrow_here(s, i) {
        i
    } else {
        arrow_from(s, i + 1)
    }
}

/// Where an arrow is found, it lies within the text and leaves room for
/// its `>`.
pub proof fn lemma_arrow_bounds(s: Seq<char>, i: int)
    requires
        0 <= i <= s.len(),
    ensures
        i <= arrow_from(s, i) <= s.len(),
        arrow_from(s, i) < s.len() ==> arrow_from(s, i) + 1 < s.len(),
    decreases s.len() - i,
{
    if i < s.len() {
        if !(at_top(state_upto(s, i)) && s[i] == '=' && i + 1 < s.len() && s[i + 1] == '>') {
            lemma_arrow_bounds(s, i + 1);
        }
    }
}

/// Between its first and last character, the text never returns to the top
/// level: the outermost delimiter pair encloses everything.
pub open spec fn enclosed(s: Seq<char>) -> bool {
    balanced(s) && forall|k: int| 0 < k < s.len() ==> !at_top(state_upto(s, k))
}

/// `s` is one delimiter group: it opens with `open`, closes with the
/// matching delimiter at its very end, and nothing in between escapes.
pub open spec fn wraps(s: Seq<char>, open: char) -> bool {
    s.len() >= 2 && s[0] == open && s[s.len() - 1] == closer_of(open) && enclosed(s)
}

/// A double-quoted string literal and nothing else.
pub open spec fn str_lit_ok(s: Seq<char>) -> bool {
    s.len() >= 2 && s[0] == '"' && s[s.len() - 1] == '"' && enclosed(s)
}

pub open spec fn is_ident_start(c: char) -> bool {
    ('a' <= c && c <= 'z') || ('A' <= c && c <= 'Z') || c == '_'
}

pub open spec fn is_ident_char(c: char) -> bool {
    is_ident_start(c) || ('0' <= c && c <= '9')
}

/// First index at or after `i` holding a character that cannot continue an
/// identifier.
pub open spec fn ident_end(s: Seq<char>, i: int) -> int
    decreases s.len() - i,
{
    if 0 <= i < s.len() && is_ident_char(s[i]) {
        ident_end(s, i + 1)
    } else {
        i
    }
}

/// A non-empty identifier: a letter or underscore, then letters, digits and
/// underscores.
pub open spec fn ident_ok(s: Seq<char>) -> bool {
    s.len() > 0 && is_ident_start(s[0]) && forall|k: int| 0 <= k < s.len() ==> is_ident_char(s[k])
}

/// Copy of `s[a..b]`.
pub fn subvec(s: &Vec<char>, a: usize, b: usize) -> (r: Vec<char>)
    requires
        a <= b <= s@.len(),
    ensures
        r@ == s@.subrange(a as int, b as int),
{
    let mut r: Vec<char> = Vec::new();
    let mut i: usize = a;
    while i < b
        invariant
            a <= i <= b,
            r@ == s@.subrange(a as int, i as int),
        decreases b - i,
    {
        r.push(s[i]);
        proof {
            assert(r@ =~= s@.subrange(a as int, i + 1 as int));
        }
        i += 1;
    }
    r
}

/// Append a copy of `src` to `dst`.
pub fn append_chars(dst: &mut Vec<char>, src: &Vec<char>)
    ensures
        final(dst)@ == old(dst)@ + src@,
{
    let mut i: usize = 0;
    while i < src.len()
        invariant
            i <= src@.len(),
            dst@ == old(dst)@ + src@.subrange(0, i as int),
        decreases src@.len() - i,
    {
        dst.push(src[i]);
        proof {
            assert(dst@ =~= old(dst)@ + src@.subrange(0, i + 1 as int));
        }
        i += 1;
    }
    proof {
        assert(dst@ =~= old(dst)@ + src@);
    }
}

/// The views of a sequence of character vectors.
pub open spec fn views_of(vs: Seq<Vec<char>>) -> Seq<Seq<char>> {
    Seq::new(vs.len(), |i: int| vs[i]@)
}

pub proof fn lemma_views_push(vs: Seq<Vec<char>>, v: Vec<char>)
    ensures
        views_of(vs.push(v)) == views_of(vs).push(v@),
{
    assert(views_of(vs.push(v)) =~= views_of(vs).push(v@));
}

/// Split the text on its top-level commas; also report whether the whole
/// text is balanced.
pub fn split_segments(s: &Vec<char>) -> (r: (Vec<Vec<char>>, bool))
    ensures
        views_of(r.0@) == split_top(s@),
        r.1 == balanced(s@),
        r.0@.len() >= 1,
{
    let mut sc = Scanner::new();
    let mut segs: Vec<Vec<char>> = Vec::new();
    let mut cur: Vec<char> = Vec::new();
    let mut i: usize = 0;
    let ghost mut start: int = 0;
    while i < s.len()
        invariant
            i <= s@.len(),
            0 <= start <= i,
            sc@ == state_upto(s@, i as int),
            cur@ == s@.subrange(start, i as int),
            split_top(s@) == views_of(segs@) + split_from(s@, i as int, start),
        decreases s@.len() - i,
    {
        let c = s[i];
        if sc.at_top() && c == ',' {
            proof {
                assert(split_from(s@, i as int, start) == seq![s@.subrange(start, i as int)]
                    + split_from(s@, i + 1, i + 1));
                lemma_views_push(segs@, cur);
            }
            let ghost pre = views_of(segs@);
            segs.push(cur);
            cur = Vec::new();
            proof {
                assert(cur@ =~= s@.subrange(i + 1, i + 1));
                assert(views_of(segs@) == pre.push(s@.subrange(start, i as int)));
                assert(pre + (seq![s@.subrange(start, i as int)] + split_from(s@, i + 1, i + 1))
                    =~= views_of(segs@) + split_from(s@, i + 1, i + 1));
                start = i + 1;
                assert(state_upto(s@, i + 1) == scan_step(state_upto(s@, i as int), c));
                assert(scan_step(sc@, c) == sc@);
            }
        } else {
            sc.step(c);
            cur.push(c);
            proof {
                assert(cur@ =~= s@.subrange(start, i + 1));
                assert(state_upto(s@, i + 1) == scan_step(state_upto(s@, i as int), c));
                assert(split_from(s@, i as int, start) == split_from(s@, i + 1, start));
            }
        }
        i += 1;
    }
    proof {
        assert(split_from(s@, i as int, start) == seq![s@.subrange(start, s@.len() as int)]);
        lemma_views_push(segs@, cur);
    }
    let ghost pre = views_of(segs@);
    let top = sc.at_top();
    segs.push(cur);
    proof {
        assert(pre + seq![s@.subrange(start, s@.len() as int)] =~= views_of(segs@));
    }
    (segs, top)
}

pub fn is_space_exec(c: char) -> (r: bool)
    ensures
        r == is_space(c),
{
    c == ' ' || c == '\t' || c == '\n' || c == '\r'
}

/// Copy of `s` without leading and trailing whitespace.
pub fn trim_chars(s: &Vec<char>) -> (r: Vec<char>)
    ensures
        r@ == trim(s@),
{
    let n = s.len();
    let mut a: usize = 0;
    while a < n && is_space_exec(s[a])
        invariant
            0 <= a <= n,
            n == s@.len(),
            lskip(s@, 0) == lskip(s@, a as int),
        decreases n - a,
    {
        a += 1;
    }
    proof {
        assert(lskip(s@, a as int) == a as int);
    }
    let mut b: usize = n;
    while b > 0 && is_space_exec(s[b - 1])
        invariant
            0 <= b <= n,
            n == s@.len(),
            rskip(s@, n as int) == rskip(s@, b as int),
        decreases b,
    {
        b -= 1;
    }
    proof {
        assert(rskip(s@, b as int) == b as int);
    }
    if a <= b {
        subvec(s, a, b)
    } else {
        Vec::new()
    }
}

/// Index of the `=` of the first top-level `=>` at or after `from`, or the
/// length of `s` when there is none.
pub fn find_arrow(s: &Vec<char>, from: usize) -> (r: usize)
    requires
        from <= s@.len(),
    ensures
        r == arrow_from(s@, from as int),
{
    let n = s.len();
    let mut sc = Scanner::new();
    let mut i: usize = 0;
    while i < n
        invariant
            0 <= i <= n,
            n == s@.len(),
            from <= n,
            sc@ == state_upto(s@, i as int),
            i > from ==> arrow_from(s@, from as int) == arrow_from(s@, i as int),
        decreases n - i,
    {
        let c = s[i];
        if i >= from && sc.at_top() && c == '=' && i + 1 < n && s[i + 1] == '>' {
            proof {
                assert(arrow_from(s@, i as int) == i as int);
            }
            return i;
        }
        proof {
            if i >= from {
                assert(arrow_from(s@, i as int) == arrow_from(s@, i + 1));
            }
            assert(state_upto(s@, i + 1) == scan_step(state_upto(s@, i as int), c));
        }
        sc.step(c);
        i += 1;
    }
    proof {
        assert(arrow_from(s@, i as int) == s@.len() as int);
    }
    n
}

/// A split always yields at least one segment.
pub proof fn lemma_split_nonempty(s: Seq<char>, i: int, start: int)
    ensures
        split_from(s, i, start).len() >= 1,
    decreases s.len() - i,
{
    if !(i < 0 || i >= s.len()) {
        if at_top(state_upto(s, i)) && s[i] == ',' {
            lemma_split_nonempty(s, i + 1, i + 1);
        } else {
            lemma_split_nonempty(s, i + 1, start);
        }
    }
}

/// A character that never changes the scan state: no quote, no
/// delimiter.
pub open spec fn plain_char(c: char) -> bool {
    c != '"' && !is_open(c) && !is_close(c)
}

/// Over text made of plain characters only, the scanner never leaves its
/// initial state.
pub proof fn lemma_plain_states(s: Seq<char>)
    requires
        forall|d: int| 0 <= d < s.len() ==> plain_char(#[trigger] s[d]),
    ensures
        forall|k: int| 0 <= k <= s.len() ==> #[trigger] state_upto(s, k) == init_scan(),
{
    assert forall|k: int| 0 <= k <= s.len() implies #[trigger] state_upto(s, k)
        == init_scan() by {
        lemma_plain_states_upto(s, k);
    }
}

proof fn lemma_plain_states_upto(s: Seq<char>, k: int)
    requires
        forall|d: int| 0 <= d < s.len() ==> plain_char(#[trigger] s[d]),
        0 <= k <= s.len(),
    ensures
        state_upto(s, k) == init_scan(),
    decreases k,
{
    if k > 0 {
        lemma_plain_states_upto(s, k - 1);
        assert(scan_step(init_scan(), s[k - 1]) == init_scan());
    }
}

/// The scan state at a position depends only on the characters before
/// it.
pub proof fn lemma_state_prefix(a: Seq<char>, b: Seq<char>, k: int)
    requires
        0 <= k <= a.len(),
        k <= b.len(),
        forall|d: int| 0 <= d < k ==> a[d] == #[trigger] b[d],
    ensures
        state_upto(a, k) == state_upto(b, k),
    decreases k,
{
    if k > 0 {
        lemma_state_prefix(a, b, k - 1);
    }
}

/// Plain characters leave a state that is outside a string literal
/// untouched, over a whole range.
pub proof fn lemma_plain_range(s: Seq<char>, i: int, j: int)
    requires
        0 <= i <= j <= s.len(),
        forall|d: int| i <= d < j ==> plain_char(#[trigger] s[d]),
        !state_upto(s, i).in_str,
        !state_upto(s, i).esc,
    ensures
        forall|k: int| i <= k <= j ==> #[trigger] state_upto(s, k) == state_upto(s, i),
    decreases j - i,
{
    if j > i {
        lemma_plain_range(s, i, j - 1);
        assert(state_upto(s, j) == scan_step(state_upto(s, j - 1), s[j - 1]));
        assert(scan_step(state_upto(s, i), s[j - 1]) == state_upto(s, i));
    }
}

/// Where `p` carries the first top-level comma at or after `i`, the split
/// closes the current segment there.
pub proof fn lemma_split_first_comma(s: Seq<char>, i: int, start: int, p: int)
    requires
        0 <= start <= i <= p < s.len(),
        at_top(state_upto(s, p)),
        s[p] == ',',
        forall|k: int|
            i <= k < p ==> !(at_top(state_upto(s, k)) && #[trigger] s[k] == ','),
    ensures
        split_from(s, i, start) == seq![s.subrange(start, p)] + split_from(s, p + 1, p + 1),
    decreases p - i,
{
    if i < p {
        lemma_split_first_comma(s, i + 1, start, p);
    }
}

/// Without a top-level comma at or after `i`, the rest of the text is one
/// segment.
pub proof fn lemma_split_one(s: Seq<char>, i: int, start: int)
    requires
        0 <= start <= i,
        forall|k: int|
            i <= k < s.len() ==> !(at_top(state_upto(s, k)) && #[trigger] s[k] == ','),
    ensures
        split_from(s, i, start) == seq![s.subrange(start, s.len() as int)],
    decreases s.len() - i,
{
    if !(i < 0 || i >= s.len()) {
        lemma_split_one(s, i + 1, start);
    }
}

/// Where `p` carries the first top-level arrow at or after `i`, the search
/// finds `p`.
pub proof fn lemma_arrow_at(s: Seq<char>, i: int, p: int)
    requires
        0 <= i <= p < s.len(),
        arrow_here(s, p),
        forall|k: int| i <= k < p ==> !arrow_here(s, k),
    ensures
        arrow_from(s, i) == p,
    decreases p - i,
{
    if i < p {
        lemma_arrow_at(s, i + 1, p);
    }
}

/// Without a top-level arrow at or after `i`, the search reports the end.
pub proof fn lemma_arrow_none(s: Seq<char>, i: int)
    requires
        0 <= i,
        forall|k: int| i <= k < s.len() ==> !arrow_here(s, k),
    ensures
        arrow_from(s, i) == s.len() as int,
    decreases s.len() - i,
{
    if i < s.len() {
        lemma_arrow_none(s, i + 1);
    }
}

/// The identifier scan stops exactly where the identifier characters
/// stop.
pub proof fn lemma_ident_end_of(s: Seq<char>, i: int, e: int)
    requires
        0 <= i <= e <= s.len(),
        forall|d: int| i <= d < e ==> is_ident_char(#[trigger] s[d]),
        e == s.len() || !is_ident_char(s[e]),
    ensures
        ident_end(s, i) == e,
    decreases e - i,
{
    if i < e {
        lemma_ident_end_of(s, i + 1, e);
    }
}

/// The whitespace skip stops exactly where the whitespace stops.
pub proof fn lemma_lskip_of(s: Seq<char>, i: int, p: int)
    requires
        0 <= i <= p <= s.len(),
        forall|d: int| i <= d < p ==> is_space(#[trigger] s[d]),
        p == s.len() || !is_space(s[p]),
    ensures
        lskip(s, i) == p,
    decreases p - i,
{
    if i < p {
        lemma_lskip_of(s, i + 1, p);
    }
}

/// Segments joined back with commas.
pub open spec fn join_commas(segs: Seq<Seq<char>>) -> Seq<char>
    decreases segs.len(),
{
    if segs.len() == 0 {
        Seq::empty()
    } else if segs.len() == 1 {
        segs[0]
    } else {
        segs[0] + seq![','] + join_commas(segs.drop_first())
    }
}

pub proof fn lemma_split_join_from(s: Seq<char>, i: int, start: int)
    requires
        0 <= start <= i <= s.len(),
    ensures
        join_commas(split_from(s, i, start)) == s.subrange(start, s.len() as int),
    decreases s.len() - i,
{
    if i >= s.len() {
    } else if at_top(state_upto(s, i)) && s[i] == ',' {
        lemma_split_join_from(s, i + 1, i + 1);
        lemma_split_nonempty(s, i + 1, i + 1);
        let rest = split_from(s, i + 1, i + 1);
        let whole = seq![s.subrange(start, i)] + rest;
        assert(whole.drop_first() =~= rest);
        assert(join_commas(whole) == s.subrange(start, i) + seq![','] + join_commas(rest));
        assert(s.subrange(start, i) + seq![','] + s.subrange(i + 1, s.len() as int) =~= s.subrange(
            start,
            s.len() as int,
        ));
    } else {
        lemma_split_join_from(s, i + 1, start);
    }
}

/// The splitter loses and invents nothing: the segments of the text,
/// joined back with commas, are the text itself.
pub proof fn lemma_split_join(s: Seq<char>)
    ensures
        join_commas(split_top(s)) == s,
{
    lemma_split_join_from(s, 0, 0);
    assert(s.subrange(0, s.len() as int) =~= s);
}

/// Whether the whole text is balanced.
pub fn balanced_check(s: &Vec<char>) -> (r: bool)
    ensures
        r == balanced(s@),
{
    let n = s.len();
    let mut sc = Scanner::new();
    let mut i: usize = 0;
    while i < n
        invariant
            0 <= i <= n,
            n == s@.len(),
            sc@ == state_upto(s@, i as int),
        decreases n - i,
    {
        let c = s[i];
        sc.step(c);
        proof {
            assert(state_upto(s@, i + 1) == scan_step(state_upto(s@, i as int), c));
        }
        i += 1;
    }
    sc.at_top()
}

/// Whether the text is balanced and never returns to the top level strictly
/// inside itself.
pub fn enclosed_check(s: &Vec<char>) -> (r: bool)
    ensures
        r == enclosed(s@),
{
    let n = s.len();
    let mut sc = Scanner::new();
    let mut inner_ok = true;
    let mut i: usize = 0;
    while i < n
        invariant
            0 <= i <= n,
            n == s@.len(),
            sc@ == state_upto(s@, i as int),
            inner_ok == forall|k: int| 0 < k < i ==> !at_top(state_upto(s@, k)),
        decreases n - i,
    {
        if i > 0 && sc.at_top() {
            inner_ok = false;
        }
        let c = s[i];
        sc.step(c);
        proof {
            assert(state_upto(s@, i + 1) == scan_step(state_upto(s@, i as int), c));
        }
        i += 1;
    }
    let bal = sc.at_top();
    bal && inner_ok
}

pub fn is_ident_start_exec(c: char) -> (r: bool)
    ensures
        r == is_ident_start(c),
{
    ('a' <= c && c <= 'z') || ('A' <= c && c <= 'Z') || c == '_'
}

pub fn is_ident_char_exec(c: char) -> (r: bool)
    ensures
        r == is_ident_char(c),
{
    is_ident_start_exec(c) || ('0' <= c && c <= '9')
}

/// First index at or after `from` that cannot continue an identifier.
pub fn scan_ident_end(s: &Vec<char>, from: usize) -> (r: usize)
    requires
        from <= s@.len(),
    ensures
        r == ident_end(s@, from as int),
        from <= r <= s@.len(),
{
    let n = s.len();
    let mut i: usize = from;
    while i < n && is_ident_char_exec(s[i])
        invariant
            from <= i <= n,
            n == s@.len(),
            ident_end(s@, from as int) == ident_end(s@, i as int),
        decreases n - i,
    {
        i += 1;
    }
    proof {
        assert(ident_end(s@, i as int) == i as int);
    }
    i
}

/// Whether the text is a well-formed identifier.
pub fn ident_check(s: &Vec<char>) -> (r: bool)
    ensures
        r == ident_ok(s@),
{
    if s.len() == 0 || !is_ident_start_exec(s[0]) {
        return false;
    }
    let n = s.len();
    let mut i: usize = 0;
    while i < n
        invariant
            0 <= i <= n,
            n == s@.len(),
            forall|k: int| 0 <= k < i ==> is_ident_char(s@[k]),
        decreases n - i,
    {
        if !is_ident_char_exec(s[i]) {
            return false;
        }
        i += 1;
    }
    true
}

/// First index at or after `from` that is not whitespace.
pub fn skip_spaces(s: &Vec<char>, from: usize) -> (r: usize)
    requires
        from <= s@.len(),
    ensures
        r == lskip(s@, from as int),
        from <= r <= s@.len(),
{
    let n = s.len();
    let mut i: usize = from;
    while i < n && is_space_exec(s[i])
        invariant
            from <= i <= n,
            n == s@.len(),
            lskip(s@, from as int) == lskip(s@, i as int),
        decreases n - i,
    {
        i += 1;
    }
    proof {
        assert(lskip(s@, i as int) == i as int);
    }
    i
}

} // verus!
