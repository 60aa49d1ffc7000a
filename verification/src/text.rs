//! Text primitives shared by the bridges: whitespace, trimming, line
//! splitting, quoting for the shell, decimal numbers and UTF-8 lengths.
//! Every executable function here is stated over `Seq<char>`.
use vstd::prelude::*;

verus! {

/// `String::push` appends one character.
pub assume_specification[ String::push ](s: &mut String, ch: char)
    ensures
        final(s)@ == old(s)@.push(ch),
;

// ---------------------------------------------------------------------
// Whitespace and trimming
// ---------------------------------------------------------------------

/// The Unicode `White_Space` property, which `char::is_whitespace` tests.
pub open spec fn is_ws(c: char) -> bool {
    let u = c as u32;
    ||| u == 0x20
    ||| (0x09 <= u && u <= 0x0d)
    ||| u == 0x85
    ||| u == 0xa0
    ||| u == 0x1680
    ||| (0x2000 <= u && u <= 0x200a)
    ||| u == 0x2028
    ||| u == 0x2029
    ||| u == 0x202f
    ||| u == 0x205f
    ||| u == 0x3000
}

/// `char::is_whitespace`.
pub fn is_whitespace(c: char) -> (b: bool)
    ensures
        b == is_ws(c),
{
    let u = c as u32;
    u == 0x20 || (0x09 <= u && u <= 0x0d) || u == 0x85 || u == 0xa0 || u == 0x1680 || (0x2000
        <= u && u <= 0x200a) || u == 0x2028 || u == 0x2029 || u == 0x202f || u == 0x205f || u
        == 0x3000
}

/// `s` without its leading whitespace.
pub open spec fn trim_start(s: Seq<char>) -> Seq<char>
    decreases s.len(),
{
    if s.len() > 0 && is_ws(s[0]) {
        trim_start(s.drop_first())
    } else {
        s
    }
}

/// `s` without its trailing whitespace.
pub open spec fn trim_end(s: Seq<char>) -> Seq<char>
    decreases s.len(),
{
    if s.len() > 0 && is_ws(s.last()) {
        trim_end(s.drop_last())
    } else {
        s
    }
}

/// What `str::trim` returns.
pub open spec fn trim(s: Seq<char>) -> Seq<char> {
    trim_end(trim_start(s))
}

// ---------------------------------------------------------------------
// Conversions between `&str`, `String` and `Vec<char>`
// ---------------------------------------------------------------------

/// The characters of `s`, in order.
pub fn chars_of(s: &str) -> (v: Vec<char>)
    ensures
        v@ == s@,
{
    let mut v: Vec<char> = Vec::new();
    for c in it: s.chars()
        invariant
            v@ == it.history(),
    {
        v.push(c);
    }
    proof {
        broadcast use vstd::string::group_string_axioms;

    }
    v
}

/// Appends `v[lo..hi]` to `out`.
pub fn push_range(out: &mut String, v: &Vec<char>, lo: usize, hi: usize)
    requires
        lo <= hi <= v@.len(),
    ensures
        final(out)@ == old(out)@ + v@.subrange(lo as int, hi as int),
{
    let mut i: usize = lo;
    while i < hi
        invariant
            lo <= i <= hi <= v@.len(),
            out@ == old(out)@ + v@.subrange(lo as int, i as int),
        decreases hi - i,
    {
        out.push(v[i]);
        i = i + 1;
        assert(v@.subrange(lo as int, i as int) =~= v@.subrange(lo as int, i - 1).push(
            v@[i - 1],
        ));
    }
}

/// Appends all of `v` to `out`.
pub fn push_chars(out: &mut String, v: &Vec<char>)
    ensures
        final(out)@ == old(out)@ + v@,
{
    push_range(out, v, 0, v.len());
    assert(v@.subrange(0, v@.len() as int) =~= v@);
}

/// Appends all of `s` to `out`.
pub fn push_str(out: &mut String, s: &str)
    ensures
        final(out)@ == old(out)@ + s@,
{
    let v = chars_of(s);
    push_chars(out, &v);
}

/// A `String` that holds `v`.
pub fn string_of(v: &Vec<char>) -> (s: String)
    ensures
        s@ == v@,
{
    let mut s = String::new();
    push_chars(&mut s, v);
    assert(s@ =~= v@);
    s
}

/// A `String` that holds `v[lo..hi]`.
pub fn string_of_range(v: &Vec<char>, lo: usize, hi: usize) -> (s: String)
    requires
        lo <= hi <= v@.len(),
    ensures
        s@ == v@.subrange(lo as int, hi as int),
{
    let mut s = String::new();
    push_range(&mut s, v, lo, hi);
    assert(s@ =~= v@.subrange(lo as int, hi as int));
    s
}

/// An owned copy of `s`.
pub fn owned(s: &str) -> (r: String)
    ensures
        r@ == s@,
{
    let mut r = String::new();
    push_str(&mut r, s);
    assert(r@ =~= s@);
    r
}

/// Whether two character sequences are equal.
pub fn chars_eq(a: &Vec<char>, b: &Vec<char>) -> (r: bool)
    ensures
        r == (a@ == b@),
{
    if a.len() != b.len() {
        return false;
    }
    let mut i: usize = 0;
    while i < a.len()
        invariant
            a@.len() == b@.len(),
            i <= a@.len(),
            forall|j: int| 0 <= j < i ==> a@[j] == b@[j],
        decreases a.len() - i,
    {
        if a[i] != b[i] {
            return false;
        }
        i = i + 1;
    }
    assert(a@ =~= b@);
    true
}

/// Whether `s` holds exactly `lit`.
pub fn str_is(s: &str, lit: &str) -> (r: bool)
    ensures
        r == (s@ == lit@),
{
    let a = chars_of(s);
    let b = chars_of(lit);
    chars_eq(&a, &b)
}

// ---------------------------------------------------------------------
// Trimming
// ---------------------------------------------------------------------

proof fn lemma_trim_start_skip(s: Seq<char>, i: int)
    requires
        0 <= i <= s.len(),
        forall|j: int| 0 <= j < i ==> is_ws(#[trigger] s[j]),
    ensures
        trim_start(s) == trim_start(s.subrange(i, s.len() as int)),
    decreases i,
{
    if i > 0 {
        assert(is_ws(s[0]));
        let t = s.drop_first();
        assert forall|j: int| 0 <= j < i - 1 implies is_ws(#[trigger] t[j]) by {
            assert(t[j] == s[j + 1]);
        }
        lemma_trim_start_skip(t, i - 1);
        assert(t.subrange(i - 1, t.len() as int) =~= s.subrange(i, s.len() as int));
    } else {
        assert(s.subrange(0, s.len() as int) =~= s);
    }
}

proof fn lemma_trim_end_cut(s: Seq<char>, k: int)
    requires
        0 <= k <= s.len(),
        forall|j: int| k <= j < s.len() ==> is_ws(#[trigger] s[j]),
    ensures
        trim_end(s) == trim_end(s.subrange(0, k)),
    decreases s.len() - k,
{
    if k < s.len() {
        assert(is_ws(s.last()));
        let t = s.drop_last();
        assert forall|j: int| k <= j < t.len() implies is_ws(#[trigger] t[j]) by {
            assert(t[j] == s[j]);
        }
        lemma_trim_end_cut(t, k);
        assert(t.subrange(0, k) =~= s.subrange(0, k));
    } else {
        assert(s.subrange(0, k) =~= s);
    }
}

proof fn lemma_trim_start_index(s: Seq<char>) -> (lo: int)
    ensures
        0 <= lo <= s.len(),
        trim_start(s) == s.subrange(lo, s.len() as int),
        forall|j: int| 0 <= j < lo ==> is_ws(#[trigger] s[j]),
        lo < s.len() ==> !is_ws(s[lo]),
    decreases s.len(),
{
    if s.len() > 0 && is_ws(s[0]) {
        let t = s.drop_first();
        let k = lemma_trim_start_index(t);
        assert(t.subrange(k, t.len() as int) =~= s.subrange(k + 1, s.len() as int));
        assert forall|j: int| 0 <= j < k + 1 implies is_ws(#[trigger] s[j]) by {
            if j > 0 {
                assert(s[j] == t[j - 1]);
            }
        }
        if k + 1 < s.len() {
            assert(s[k + 1] == t[k]);
        }
        k + 1
    } else {
        assert(s.subrange(0, s.len() as int) =~= s);
        0
    }
}

proof fn lemma_trim_end_index(s: Seq<char>) -> (hi: int)
    ensures
        0 <= hi <= s.len(),
        trim_end(s) == s.subrange(0, hi),
        forall|j: int| hi <= j < s.len() ==> is_ws(#[trigger] s[j]),
        hi > 0 ==> !is_ws(s[hi - 1]),
    decreases s.len(),
{
    if s.len() > 0 && is_ws(s.last()) {
        let t = s.drop_last();
        let k = lemma_trim_end_index(t);
        assert(t.subrange(0, k) =~= s.subrange(0, k));
        assert forall|j: int| k <= j < s.len() implies is_ws(#[trigger] s[j]) by {
            if j < t.len() {
                assert(s[j] == t[j]);
            }
        }
        if k > 0 {
            assert(s[k - 1] == t[k - 1]);
        }
        k
    } else {
        assert(s.subrange(0, s.len() as int) =~= s);
        if s.len() > 0 {
            assert(s[s.len() - 1] == s.last());
        }
        s.len() as int
    }
}

/// Trimming law: `trim(s)` is the part of `s` between its leading and its
/// trailing whitespace: a contiguous run of `s` that neither starts nor
/// ends with whitespace, with only whitespace before and after it.
pub proof fn lemma_trim_is_core(s: Seq<char>)
    ensures
        exists|lo: int, hi: int|
            0 <= lo <= hi <= s.len() && trim(s) == s.subrange(lo, hi) && (forall|j: int|
                0 <= j < lo ==> is_ws(#[trigger] s[j])) && (forall|j: int|
                hi <= j < s.len() ==> is_ws(#[trigger] s[j])) && (lo < hi ==> !is_ws(s[lo])
                && !is_ws(s[hi - 1])),
{
    let lo = lemma_trim_start_index(s);
    let u = s.subrange(lo, s.len() as int);
    let k = lemma_trim_end_index(u);
    let hi = lo + k;
    assert(u.subrange(0, k) =~= s.subrange(lo, hi));
    assert forall|j: int| hi <= j < s.len() implies is_ws(#[trigger] s[j]) by {
        assert(s[j] == u[j - lo]);
    }
    if lo < hi {
        assert(s[lo] == u[0]);
        assert(s[hi - 1] == u[k - 1]);
    }
    assert(0 <= lo <= hi <= s.len() && trim(s) == s.subrange(lo, hi));
}

/// The bounds `(lo, hi)` of `trim(v)` inside `v`.
pub fn trim_bounds(v: &Vec<char>) -> (r: (usize, usize))
    ensures
        r.0 <= r.1 <= v@.len(),
        v@.subrange(r.0 as int, r.1 as int) == trim(v@),
{
    let n = v.len();
    let mut lo: usize = 0;
    while lo < n && is_whitespace(v[lo])
        invariant
            lo <= n == v@.len(),
            forall|j: int| 0 <= j < lo ==> is_ws(#[trigger] v@[j]),
        decreases n - lo,
    {
        lo = lo + 1;
    }
    let mut hi: usize = n;
    while hi > lo && is_whitespace(v[hi - 1])
        invariant
            lo <= hi <= n == v@.len(),
            forall|j: int| hi <= j < n ==> is_ws(#[trigger] v@[j]),
        decreases hi - lo,
    {
        hi = hi - 1;
    }
    proof {
        lemma_trim_start_skip(v@, lo as int);
        let t = v@.subrange(lo as int, n as int);
        assert(trim_start(t) == t);
        assert forall|j: int| hi - lo <= j < t.len() implies is_ws(#[trigger] t[j]) by {
            assert(t[j] == v@[j + lo]);
        }
        lemma_trim_end_cut(t, hi - lo);
        let u = t.subrange(0, hi - lo);
        assert(u =~= v@.subrange(lo as int, hi as int));
        if u.len() > 0 {
            assert(u.last() == v@[hi - 1]);
        }
        assert(trim_end(u) == u);
    }
    (lo, hi)
}

/// What `str::trim` returns, as an owned string.
pub fn trimmed(s: &str) -> (r: String)
    ensures
        r@ == trim(s@),
{
    let v = chars_of(s);
    let (lo, hi) = trim_bounds(&v);
    string_of_range(&v, lo, hi)
}

/// Whether `s.trim() == lit`.
pub fn trimmed_is(s: &str, lit: &str) -> (r: bool)
    ensures
        r == (trim(s@) == lit@),
{
    let t = trimmed(s);
    str_is(t.as_str(), lit)
}


// ---------------------------------------------------------------------
// Lines
// ---------------------------------------------------------------------

/// A line without the `'\r'` that ends it, if one does.
pub open spec fn strip_cr(l: Seq<char>) -> Seq<char> {
    if l.len() > 0 && l.last() == '\r' {
        l.drop_last()
    } else {
        l
    }
}

/// Reading `s` from the left: the lines already ended by `'\n'` and the
/// line in progress.
pub open spec fn line_fold(s: Seq<char>) -> (Seq<Seq<char>>, Seq<char>)
    decreases s.len(),
{
    if s.len() == 0 {
        (Seq::empty(), Seq::empty())
    } else {
        let (done, cur) = line_fold(s.drop_last());
        if s.last() == '\n' {
            (done.push(strip_cr(cur)), Seq::empty())
        } else {
            (done, cur.push(s.last()))
        }
    }
}

/// What `str::lines` yields: pieces ended by `"\n"` or `"\r\n"`; the last
/// line needs no ending, and an empty remainder gives no line.
pub open spec fn lines(s: Seq<char>) -> Seq<Seq<char>> {
    let (done, cur) = line_fold(s);
    if cur.len() > 0 {
        done.push(cur)
    } else {
        done
    }
}

/// The views of a sequence of character vectors.
pub open spec fn views(vs: Seq<Vec<char>>) -> Seq<Seq<char>> {
    vs.map_values(|l: Vec<char>| l@)
}

/// The lines of `v`, as `str::lines` splits them.
pub fn split_lines(v: &Vec<char>) -> (r: Vec<Vec<char>>)
    ensures
        views(r@) == lines(v@),
{
    let mut done: Vec<Vec<char>> = Vec::new();
    let mut cur: Vec<char> = Vec::new();
    let n = v.len();
    let mut i: usize = 0;
    while i < n
        invariant
            i <= n == v@.len(),
            (views(done@), cur@) == line_fold(v@.take(i as int)),
        decreases n - i,
    {
        let c = v[i];
        proof {
            assert(v@.take(i + 1).drop_last() =~= v@.take(i as int));
            assert(v@.take(i + 1).last() == c);
        }
        if c == '\n' {
            let len = cur.len();
            if len > 0 && cur[len - 1] == '\r' {
                cur.pop();
            }
            let line = cur;
            done.push(line);
            cur = Vec::new();
            proof {
                assert(views(done@) =~= views(done@.drop_last()).push(line@));
            }
        } else {
            cur.push(c);
        }
        i = i + 1;
    }
    proof {
        assert(v@.take(n as int) =~= v@);
    }
    if cur.len() > 0 {
        let line = cur;
        done.push(line);
        proof {
            assert(views(done@) =~= views(done@.drop_last()).push(line@));
        }
    }
    done
}

// ---------------------------------------------------------------------
// Joining
// ---------------------------------------------------------------------

/// The pieces joined with `sep` between each two (`[T]::join`).
pub open spec fn join(parts: Seq<Seq<char>>, sep: Seq<char>) -> Seq<char>
    decreases parts.len(),
{
    if parts.len() == 0 {
        Seq::empty()
    } else if parts.len() == 1 {
        parts[0]
    } else {
        join(parts.drop_last(), sep) + sep + parts.last()
    }
}

/// `parts` joined with `sep`.
pub fn join_chars(parts: &Vec<Vec<char>>, sep: &str) -> (r: Vec<char>)
    ensures
        r@ == join(views(parts@), sep@),
{
    let sv = chars_of(sep);
    let mut r: Vec<char> = Vec::new();
    let n = parts.len();
    let mut i: usize = 0;
    while i < n
        invariant
            i <= n == parts@.len(),
            sv@ == sep@,
            r@ == join(views(parts@).take(i as int), sep@),
        decreases n - i,
    {
        let ghost before = r@;
        if i > 0 {
            let mut k: usize = 0;
            while k < sv.len()
                invariant
                    k <= sv@.len(),
                    r@ == before + sv@.take(k as int),
                decreases sv.len() - k,
            {
                r.push(sv[k]);
                k = k + 1;
                assert(sv@.take(k as int) =~= sv@.take(k - 1).push(sv@[k - 1]));
            }
            assert(sv@.take(sv@.len() as int) =~= sv@);
        }
        let ghost mid = r@;
        let part = &parts[i];
        let mut k: usize = 0;
        while k < part.len()
            invariant
                k <= part@.len(),
                r@ == mid + part@.take(k as int),
            decreases part.len() - k,
        {
            r.push(part[k]);
            k = k + 1;
            assert(part@.take(k as int) =~= part@.take(k - 1).push(part@[k - 1]));
        }
        proof {
            assert(part@.take(part@.len() as int) =~= part@);
            let vs = views(parts@);
            assert(vs.take(i + 1).drop_last() =~= vs.take(i as int));
            assert(vs.take(i + 1).last() == part@);
            if i == 0 {
                assert(before =~= Seq::<char>::empty());
                assert(r@ =~= part@);
            } else {
                assert(r@ =~= before + sep@ + part@);
            }
        }
        i = i + 1;
    }
    proof {
        assert(views(parts@).take(n as int) =~= views(parts@));
    }
    r
}

// ---------------------------------------------------------------------
// Replacing characters and quoting for the shell
// ---------------------------------------------------------------------

/// `s` with every `c` replaced by `rep` (`str::replace` with a char pattern).
pub open spec fn replace_char(s: Seq<char>, c: char, rep: Seq<char>) -> Seq<char>
    decreases s.len(),
{
    if s.len() == 0 {
        Seq::empty()
    } else {
        replace_char(s.drop_last(), c, rep) + (if s.last() == c {
            rep
        } else {
            seq![s.last()]
        })
    }
}

/// `s.replace(c, rep)`.
pub fn replace_chars(v: &Vec<char>, c: char, rep: &str) -> (r: Vec<char>)
    ensures
        r@ == replace_char(v@, c, rep@),
{
    let rv = chars_of(rep);
    let mut r: Vec<char> = Vec::new();
    let n = v.len();
    let mut i: usize = 0;
    while i < n
        invariant
            i <= n == v@.len(),
            rv@ == rep@,
            r@ == replace_char(v@.take(i as int), c, rep@),
        decreases n - i,
    {
        let ghost before = r@;
        let x = v[i];
        if x == c {
            let mut k: usize = 0;
            while k < rv.len()
                invariant
                    k <= rv@.len(),
                    r@ == before + rv@.take(k as int),
                decreases rv.len() - k,
            {
                r.push(rv[k]);
                k = k + 1;
                assert(rv@.take(k as int) =~= rv@.take(k - 1).push(rv@[k - 1]));
            }
            assert(rv@.take(rv@.len() as int) =~= rv@);
        } else {
            r.push(x);
        }
        proof {
            assert(v@.take(i + 1).drop_last() =~= v@.take(i as int));
            assert(v@.take(i + 1).last() == x);
            assert(r@ =~= before + (if x == c {
                rep@
            } else {
                seq![x]
            }));
        }
        i = i + 1;
    }
    proof {
        assert(v@.take(n as int) =~= v@);
    }
    r
}

/// The text that stands for one `'` inside a single-quoted shell word:
/// close the quote, an escaped quote, reopen the quote.
pub open spec fn quote_escape() -> Seq<char> {
    seq!['\'', '\\', '\'', '\'']
}

/// `s.replace('\'', "'\\''")`: `s` made safe to stand between single quotes.
pub open spec fn escape_single_quotes(s: Seq<char>) -> Seq<char> {
    replace_char(s, '\'', quote_escape())
}

/// `s.replace('\'', "'\\''")`.
pub fn shell_escape(s: &str) -> (r: String)
    ensures
        r@ == escape_single_quotes(s@),
{
    let v = chars_of(s);
    let e = replace_chars(&v, '\'', "'\\''");
    proof {
        reveal_strlit("'\\''");
        assert("'\\''"@ =~= quote_escape());
    }
    string_of(&e)
}

/// The state of a POSIX shell reading one word: outside quotes, inside
/// single quotes, or just after a backslash.
pub enum LexState {
    Plain,
    Single,
    Escaped,
}

/// One character of a shell word read in state `st`: the next state and the
/// characters that the word gains.
pub open spec fn lex_step(st: LexState, c: char) -> (LexState, Seq<char>) {
    match st {
        LexState::Plain => if c == '\'' {
            (LexState::Single, Seq::empty())
        } else if c == '\\' {
            (LexState::Escaped, Seq::empty())
        } else {
            (LexState::Plain, seq![c])
        },
        LexState::Single => if c == '\'' {
            (LexState::Plain, Seq::empty())
        } else {
            (LexState::Single, seq![c])
        },
        LexState::Escaped => (LexState::Plain, seq![c]),
    }
}

/// How a POSIX shell reads the word `s` (no blanks, no expansions): the state
/// at its end and the characters of the word it denotes.
pub open spec fn lex_word(s: Seq<char>) -> (LexState, Seq<char>)
    decreases s.len(),
{
    if s.len() == 0 {
        (LexState::Plain, Seq::empty())
    } else {
        let (st, out) = lex_word(s.drop_last());
        let (st2, more) = lex_step(st, s.last());
        (st2, out + more)
    }
}

proof fn lemma_lex_push(s: Seq<char>, c: char)
    ensures
        lex_word(s.push(c)) == ({
            let (st, out) = lex_word(s);
            let (st2, more) = lex_step(st, c);
            (st2, out + more)
        }),
{
    assert(s.push(c).drop_last() =~= s);
}

proof fn lemma_lex_open_quote_escaped(s: Seq<char>)
    ensures
        lex_word(seq!['\''] + escape_single_quotes(s)) == (LexState::Single, s),
    decreases s.len(),
{
    let q = seq!['\''];
    if s.len() == 0 {
        assert(escape_single_quotes(s) =~= Seq::<char>::empty());
        assert(q + escape_single_quotes(s) =~= q);
        assert(q =~= Seq::<char>::empty().push('\''));
        lemma_lex_push(Seq::<char>::empty(), '\'');
        assert(lex_word(q).1 =~= Seq::<char>::empty());
    } else {
        let p = s.drop_last();
        let c = s.last();
        lemma_lex_open_quote_escaped(p);
        let base = q + escape_single_quotes(p);
        if c == '\'' {
            let w1 = base.push('\'');
            let w2 = w1.push('\\');
            let w3 = w2.push('\'');
            let w4 = w3.push('\'');
            lemma_lex_push(base, '\'');
            lemma_lex_push(w1, '\\');
            lemma_lex_push(w2, '\'');
            lemma_lex_push(w3, '\'');
            assert(q + escape_single_quotes(s) =~= w4);
            assert(lex_word(w4).1 =~= p.push('\''));
        } else {
            lemma_lex_push(base, c);
            assert(q + escape_single_quotes(s) =~= base.push(c));
            assert(lex_word(base.push(c)).1 =~= p.push(c));
        }
        assert(p.push(c) =~= s);
    }
}

/// Quoting law: a shell that reads `'` + `escape_single_quotes(s)` + `'` as
/// one word gets back exactly `s`, and ends outside any quote.
pub proof fn lemma_single_quote_roundtrip(s: Seq<char>)
    ensures
        lex_word(seq!['\''] + escape_single_quotes(s) + seq!['\'']) == (LexState::Plain, s),
{
    lemma_lex_open_quote_escaped(s);
    let w = seq!['\''] + escape_single_quotes(s);
    lemma_lex_push(w, '\'');
    assert(w + seq!['\''] =~= w.push('\''));
    assert(lex_word(w.push('\'')).1 =~= s);
}


// ---------------------------------------------------------------------
// Decimal numbers
// ---------------------------------------------------------------------

/// The ASCII digit for `d < 10`.
pub open spec fn digit_char(d: nat) -> char {
    if d == 0 {
        '0'
    } else if d == 1 {
        '1'
    } else if d == 2 {
        '2'
    } else if d == 3 {
        '3'
    } else if d == 4 {
        '4'
    } else if d == 5 {
        '5'
    } else if d == 6 {
        '6'
    } else if d == 7 {
        '7'
    } else if d == 8 {
        '8'
    } else {
        '9'
    }
}

/// The decimal digits of `n`, most significant first, without leading zeros.
pub open spec fn dec(n: nat) -> Seq<char>
    decreases n,
{
    if n < 10 {
        seq![digit_char(n)]
    } else {
        dec(n / 10).push(digit_char(n % 10))
    }
}

/// `n` in decimal, left-padded with `'0'` to at least `width` characters
/// (`format!("{:0width$}", n)`).
pub open spec fn dec_padded(n: nat, width: nat) -> Seq<char> {
    if dec(n).len() >= width {
        dec(n)
    } else {
        Seq::new((width - dec(n).len()) as nat, |i: int| '0') + dec(n)
    }
}

fn digit(d: u64) -> (c: char)
    requires
        d < 10,
    ensures
        c == digit_char(d as nat),
{
    if d == 0 {
        '0'
    } else if d == 1 {
        '1'
    } else if d == 2 {
        '2'
    } else if d == 3 {
        '3'
    } else if d == 4 {
        '4'
    } else if d == 5 {
        '5'
    } else if d == 6 {
        '6'
    } else if d == 7 {
        '7'
    } else if d == 8 {
        '8'
    } else {
        '9'
    }
}

/// The decimal digits of `n`.
pub fn dec_chars(n: u64) -> (r: Vec<char>)
    ensures
        r@ == dec(n as nat),
    decreases n,
{
    if n < 10 {
        let mut r = Vec::new();
        r.push(digit(n));
        assert(r@ =~= seq![digit_char(n as nat)]);
        r
    } else {
        let mut r = dec_chars(n / 10);
        r.push(digit(n % 10));
        r
    }
}

/// Appends `n` in decimal (`format!("{}", n)`).
pub fn push_dec(out: &mut String, n: u64)
    ensures
        final(out)@ == old(out)@ + dec(n as nat),
{
    let d = dec_chars(n);
    push_chars(out, &d);
}

/// Appends `n` in decimal, zero-padded to `width` (`format!("{:0w$}", n)`).
pub fn push_dec_padded(out: &mut String, n: u64, width: usize)
    ensures
        final(out)@ == old(out)@ + dec_padded(n as nat, width as nat),
{
    let d = dec_chars(n);
    if d.len() >= width {
        push_chars(out, &d);
    } else {
        let ghost before = out@;
        let k = width - d.len();
        let mut i: usize = 0;
        while i < k
            invariant
                i <= k,
                out@ == before + Seq::new(i as nat, |j: int| '0'),
            decreases k - i,
        {
            out.push('0');
            i = i + 1;
            assert(Seq::new(i as nat, |j: int| '0') =~= Seq::new((i - 1) as nat, |j: int| '0').push(
                '0',
            ));
        }
        push_chars(out, &d);
        assert(out@ =~= before + dec_padded(n as nat, width as nat));
    }
}

/// `n` in decimal, as a string.
pub fn dec_string(n: u64) -> (r: String)
    ensures
        r@ == dec(n as nat),
{
    let mut r = String::new();
    push_dec(&mut r, n);
    assert(r@ =~= dec(n as nat));
    r
}

/// Whether `c` is an ASCII digit.
pub open spec fn is_digit(c: char) -> bool {
    48 <= (c as u32) && (c as u32) <= 57
}

/// The value of a string of ASCII digits.
pub open spec fn digits_value(s: Seq<char>) -> nat
    decreases s.len(),
{
    if s.len() == 0 {
        0
    } else {
        digits_value(s.drop_last()) * 10 + ((s.last() as u32) - 48) as nat
    }
}

pub open spec fn all_digits(s: Seq<char>) -> bool {
    forall|i: int| 0 <= i < s.len() ==> is_digit(#[trigger] s[i])
}

/// What `s.parse::<u64>().ok()` gives: an optional `+`, then one or more
/// ASCII digits whose value fits in a `u64`.
pub open spec fn parse_u64(s: Seq<char>) -> Option<u64> {
    let d = if s.len() > 0 && s[0] == '+' {
        s.drop_first()
    } else {
        s
    };
    if d.len() > 0 && all_digits(d) && digits_value(d) <= u64::MAX {
        Some(digits_value(d) as u64)
    } else {
        None
    }
}

proof fn lemma_digits_value_grows(s: Seq<char>, k: int)
    requires
        0 <= k <= s.len(),
        all_digits(s),
    ensures
        digits_value(s.take(k)) <= digits_value(s),
    decreases s.len() - k,
{
    if k < s.len() {
        lemma_digits_value_grows(s, k + 1);
        assert(s.take(k + 1).drop_last() =~= s.take(k));
        assert(is_digit(s[k]));
    } else {
        assert(s.take(k) =~= s);
    }
}

/// `s.parse::<u64>().ok()`.
pub fn parse_u64_str(s: &str) -> (r: Option<u64>)
    ensures
        r == parse_u64(s@),
{
    let v = chars_of(s);
    let start: usize = if v.len() > 0 && v[0] == '+' {
        1
    } else {
        0
    };
    let ghost d = if v@.len() > 0 && v@[0] == '+' {
        v@.drop_first()
    } else {
        v@
    };
    assert(d =~= v@.subrange(start as int, v@.len() as int));
    if v.len() == start {
        return None;
    }
    let mut acc: u64 = 0;
    let mut i: usize = start;
    while i < v.len()
        invariant
            v@ == s@,
            d == (if v@.len() > 0 && v@[0] == '+' {
                v@.drop_first()
            } else {
                v@
            }),
            start <= i <= v@.len(),
            d =~= v@.subrange(start as int, v@.len() as int),
            acc as nat == digits_value(d.take(i - start)),
            all_digits(d.take(i - start)),
        decreases v.len() - i,
    {
        let c = v[i];
        let u = c as u32;
        let ghost k = i - start;
        if u < 48 || u > 57 {
            assert(d[k] == v@[i as int]);
            assert(!is_digit(d[k]));
            assert(!all_digits(d));
            return None;
        }
        let dv = (u - 48) as u64;
        proof {
            assert(d.take(k + 1).drop_last() =~= d.take(k));
            assert(d.take(k + 1).last() == c);
            assert(all_digits(d.take(k + 1)));
        }
        if acc > 1844674407370955161 || (acc == 1844674407370955161 && dv > 5) {
            proof {
                assert(dv as nat == ((c as u32) - 48) as nat);
                assert(acc * 10 + dv > u64::MAX) by (nonlinear_arith)
                    requires
                        acc > 1844674407370955161 || (acc == 1844674407370955161 && dv > 5),
                ;
                assert(digits_value(d.take(k + 1)) > u64::MAX);
                if all_digits(d) {
                    lemma_digits_value_grows(d, k + 1);
                }
            }
            return None;
        }
        acc = acc * 10 + dv;
        i = i + 1;
    }
    assert(d.take(d.len() as int) =~= d);
    Some(acc)
}

proof fn lemma_dec_digits(n: nat)
    ensures
        all_digits(dec(n)),
        digits_value(dec(n)) == n,
        dec(n).len() > 0,
        dec(n)[0] != '+',
    decreases n,
{
    assert(digits_value(Seq::<char>::empty()) == 0);
    if n < 10 {
        assert(dec(n) =~= Seq::<char>::empty().push(digit_char(n)));
        assert(dec(n).drop_last() =~= Seq::<char>::empty());
    }
    if n >= 10 {
        lemma_dec_digits(n / 10);
        let d = dec(n);
        assert(d.drop_last() =~= dec(n / 10));
        let m = (n % 10) as nat;
        assert((digit_char(m) as u32) == 48 + m);
        assert(digits_value(d) == digits_value(dec(n / 10)) * 10 + m);
        assert forall|i: int| 0 <= i < d.len() implies is_digit(#[trigger] d[i]) by {
            if i < d.len() - 1 {
                assert(d[i] == dec(n / 10)[i]);
            }
        }
        assert(d[0] == dec(n / 10)[0]);
    }
}

/// Number law: reading back the decimal text of any `u64` gives the number.
pub proof fn lemma_parse_dec_roundtrip(n: u64)
    ensures
        parse_u64(dec(n as nat)) == Some(n),
{
    lemma_dec_digits(n as nat);
}

// ---------------------------------------------------------------------
// UTF-8 lengths and cutting at a byte offset
// ---------------------------------------------------------------------

/// The number of bytes that UTF-8 spends on `c` (`char::len_utf8`).
pub open spec fn char_width(c: char) -> nat {
    let u = c as u32;
    if u < 0x80 {
        1
    } else if u < 0x800 {
        2
    } else if u < 0x10000 {
        3
    } else {
        4
    }
}

/// The length in bytes of `s` in UTF-8 (`str::len`).
pub open spec fn utf8_len(s: Seq<char>) -> nat
    decreases s.len(),
{
    if s.len() == 0 {
        0
    } else {
        char_width(s[0]) + utf8_len(s.drop_first())
    }
}

/// The longest prefix of `s` that fits in `n` bytes.
pub open spec fn byte_prefix(s: Seq<char>, n: int) -> Seq<char>
    decreases s.len(),
{
    if s.len() == 0 || char_width(s[0]) > n {
        Seq::empty()
    } else {
        seq![s[0]] + byte_prefix(s.drop_first(), n - char_width(s[0]))
    }
}

/// What `if s.len() > n { &s[..n] } else { s }` gives.
pub open spec fn cut_bytes(s: Seq<char>, n: nat) -> Seq<char> {
    if utf8_len(s) > n {
        byte_prefix(s, n as int)
    } else {
        s
    }
}

/// Whether `&s[..n]` is defined where it is taken: `s` is no longer than
/// `n` bytes, or byte `n` starts a character.
pub open spec fn cut_ok(s: Seq<char>, n: nat) -> bool {
    utf8_len(s) <= n || utf8_len(byte_prefix(s, n as int)) == n
}

proof fn lemma_utf8_len_push(s: Seq<char>, c: char)
    ensures
        utf8_len(s.push(c)) == utf8_len(s) + char_width(c),
    decreases s.len(),
{
    if s.len() > 0 {
        lemma_utf8_len_push(s.drop_first(), c);
        assert(s.push(c).drop_first() =~= s.drop_first().push(c));
        assert(s.push(c)[0] == s[0]);
    } else {
        assert(s.push(c).drop_first() =~= Seq::<char>::empty());
        assert(s.push(c)[0] == c);
        assert(utf8_len(Seq::<char>::empty()) == 0);
    }
}

proof fn lemma_byte_prefix_skip(s: Seq<char>, n: int, i: int)
    requires
        0 <= i <= s.len(),
        utf8_len(s.take(i)) <= n,
    ensures
        byte_prefix(s, n) == s.take(i) + byte_prefix(s.skip(i), n - utf8_len(s.take(i))),
    decreases i,
{
    if i == 0 {
        assert(s.take(0) =~= Seq::<char>::empty());
        assert(s.skip(0) =~= s);
    } else {
        let t = s.drop_first();
        assert(t.take(i - 1) =~= s.take(i).drop_first());
        assert(s.take(i)[0] == s[0]);
        assert(utf8_len(s.take(i)) == char_width(s[0]) + utf8_len(t.take(i - 1)));
        lemma_byte_prefix_skip(t, n - char_width(s[0]), i - 1);
        assert(t.skip(i - 1) =~= s.skip(i));
        assert(s.take(i) =~= seq![s[0]] + t.take(i - 1));
    }
}

fn width_of(c: char) -> (w: usize)
    ensures
        w == char_width(c),
{
    let u = c as u32;
    if u < 0x80 {
        1
    } else if u < 0x800 {
        2
    } else if u < 0x10000 {
        3
    } else {
        4
    }
}

/// Whether `v` takes more than `n` bytes in UTF-8.
pub fn longer_than_bytes(v: &Vec<char>, n: usize) -> (r: bool)
    ensures
        r == (utf8_len(v@) > n),
{
    let mut used: usize = 0;
    let mut i: usize = 0;
    while i < v.len()
        invariant
            i <= v@.len(),
            used == utf8_len(v@.take(i as int)),
            used <= n,
        decreases v.len() - i,
    {
        let w = width_of(v[i]);
        proof {
            assert(v@.take(i + 1) =~= v@.take(i as int).push(v@[i as int]));
            lemma_utf8_len_push(v@.take(i as int), v@[i as int]);
        }
        if w > n - used {
            proof {
                lemma_utf8_len_split(v@, i + 1);
            }
            return true;
        }
        used = used + w;
        i = i + 1;
    }
    assert(v@.take(i as int) =~= v@);
    false
}

proof fn lemma_utf8_len_split(s: Seq<char>, k: int)
    requires
        0 <= k <= s.len(),
    ensures
        utf8_len(s) == utf8_len(s.take(k)) + utf8_len(s.skip(k)),
    decreases k,
{
    if k > 0 {
        let t = s.drop_first();
        lemma_utf8_len_split(t, k - 1);
        assert(t.take(k - 1) =~= s.take(k).drop_first());
        assert(s.take(k)[0] == s[0]);
        assert(t.skip(k - 1) =~= s.skip(k));
    } else {
        assert(s.skip(0) =~= s);
        assert(s.take(0) =~= Seq::<char>::empty());
    }
}

/// The longest prefix of `v` that fits in `n` bytes, and its byte length.
pub fn prefix_within_bytes(v: &Vec<char>, n: usize) -> (r: (Vec<char>, usize))
    ensures
        r.0@ == byte_prefix(v@, n as int),
        r.1 == utf8_len(r.0@),
        r.1 <= n,
{
    let mut out: Vec<char> = Vec::new();
    let mut used: usize = 0;
    let mut i: usize = 0;
    while i < v.len() && width_of(v[i]) <= n - used
        invariant
            i <= v@.len(),
            out@ == v@.take(i as int),
            used == utf8_len(v@.take(i as int)),
            used <= n,
        decreases v.len() - i,
    {
        let c = v[i];
        let w = width_of(c);
        proof {
            assert(v@.take(i + 1) =~= v@.take(i as int).push(c));
            lemma_utf8_len_push(v@.take(i as int), c);
        }
        out.push(c);
        used = used + w;
        i = i + 1;
    }
    proof {
        lemma_byte_prefix_skip(v@, n as int, i as int);
        let rest = v@.skip(i as int);
        assert(rest.len() == v@.len() - i);
        if i < v@.len() {
            assert(rest[0] == v@[i as int]);
            assert(char_width(rest[0]) > n - used);
        }
        assert(byte_prefix(rest, n - used) =~= Seq::<char>::empty());
        assert(v@.take(i as int) + Seq::<char>::empty() =~= v@.take(i as int));
    }
    (out, used)
}

/// Whether cutting `v` at byte `n` is defined (see `cut_ok`).
pub fn can_cut_bytes(v: &Vec<char>, n: usize) -> (r: bool)
    ensures
        r == cut_ok(v@, n as nat),
{
    if !longer_than_bytes(v, n) {
        return true;
    }
    let (_p, used) = prefix_within_bytes(v, n);
    used == n
}

/// `if s.len() > n { s[..n].to_string() } else { s }`.
pub fn cut_to_bytes(v: Vec<char>, n: usize) -> (r: Vec<char>)
    requires
        cut_ok(v@, n as nat),
    ensures
        r@ == cut_bytes(v@, n as nat),
        utf8_len(r@) <= n,
{
    if longer_than_bytes(&v, n) {
        let (p, _used) = prefix_within_bytes(&v, n);
        p
    } else {
        v
    }
}

} // verus!
