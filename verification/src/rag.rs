//! Search over the notes through the `fuche` tool: the commands that search
//! and ingest, the reader of its search listing, and what a run means.
use vstd::prelude::*;
use crate::process::{strs, ProcessRequest};
use crate::shell::{self, ShellOutput};
use crate::text::{
    chars_of, dec, escape_single_quotes, is_whitespace, is_ws, lines, owned, push_dec, push_str,
    shell_escape, split_lines, string_of, trim, trim_bounds, trim_end, views,
};

verus! {

/// One hit of a search: the file it came from and the text shown under it.
#[derive(Debug)]
pub struct Entry {
    pub source: String,
    pub snippet: String,
}

/// The answer to a search or an ingest.
#[derive(Debug)]
pub struct RagResult {
    pub query: String,
    pub results: Vec<Entry>,
    pub success: bool,
    pub error: String,
}

/// How a run ended: the command finished (or failed to start), or the task
/// running it panicked with this message.
pub enum RunOutcome {
    Completed(Result<ShellOutput, String>),
    Panicked(String),
}

// ---------------------------------------------------------------------
// Commands
// ---------------------------------------------------------------------

/// The search command for `query`, listing `limit` hits (5 when none is given).
pub open spec fn search_command_text(query: Seq<char>, limit: Option<usize>) -> Seq<char> {
    let n: nat = match limit {
        Some(l) => l as nat,
        None => 5,
    };
    "fuche search --collection default --limit "@ + dec(n) + " '"@ + escape_single_quotes(query)
        + "'"@
}

/// The search command for `query` (see `search_command_text`).
pub fn search_command(query: &str, limit: Option<usize>) -> (r: String)
    ensures
        r@ == search_command_text(query@, limit),
{
    let n: usize = match limit {
        Some(l) => l,
        None => 5,
    };
    let mut r = owned("fuche search --collection default --limit ");
    push_dec(&mut r, n as u64);
    push_str(&mut r, " '");
    let e = shell_escape(query);
    push_str(&mut r, e.as_str());
    push_str(&mut r, "'");
    r
}

/// The run of the search command.
pub fn search_request(query: &str, limit: Option<usize>) -> (r: ProcessRequest)
    ensures
        r.program@ == crate::shell::wsl_exe(),
        strs(r.args@) == seq!["--"@, "bash"@, "-l"@, "-c"@, search_command_text(query@, limit)],
        r.timeout_secs is None,
{
    let c = search_command(query, limit);
    shell::execute(c.as_str())
}

/// The command that ingests the file at `path`.
pub open spec fn ingest_command_text(path: Seq<char>) -> Seq<char> {
    "fuche ingest '"@ + escape_single_quotes(path) + "'"@
}

/// The command that ingests the file at `path`.
pub fn ingest_command(path: &str) -> (r: String)
    ensures
        r@ == ingest_command_text(path@),
{
    let mut r = owned("fuche ingest '");
    let e = shell_escape(path);
    push_str(&mut r, e.as_str());
    push_str(&mut r, "'");
    r
}

/// The run of the ingest command.
pub fn ingest_request(path: &str) -> (r: ProcessRequest)
    ensures
        r.program@ == crate::shell::wsl_exe(),
        strs(r.args@) == seq!["--"@, "bash"@, "-l"@, "-c"@, ingest_command_text(path@)],
        r.timeout_secs is None,
{
    let c = ingest_command(path);
    shell::execute(c.as_str())
}

// ---------------------------------------------------------------------
// Reading the search listing
// ---------------------------------------------------------------------

/// The characters after the last whitespace of `t`.
pub open spec fn tail_word(t: Seq<char>) -> Seq<char>
    decreases t.len(),
{
    if t.len() > 0 && !is_ws(t.last()) {
        tail_word(t.drop_last()).push(t.last())
    } else {
        Seq::empty()
    }
}

/// The last whitespace-separated word of `s`, or nothing
/// (`s.split_whitespace().last().unwrap_or("")`).
pub open spec fn last_word(s: Seq<char>) -> Seq<char> {
    tail_word(trim_end(s))
}

proof fn lemma_tail_word_split(t: Seq<char>) -> (k: int)
    ensures
        0 <= k <= t.len(),
        t == t.take(k) + tail_word(t),
        k == 0 || is_ws(t[k - 1]),
        forall|j: int| 0 <= j < tail_word(t).len() ==> !is_ws(#[trigger] tail_word(t)[j]),
    decreases t.len(),
{
    if t.len() > 0 && !is_ws(t.last()) {
        let p = t.drop_last();
        let k = lemma_tail_word_split(p);
        let w = tail_word(p);
        assert(t =~= t.take(k) + w.push(t.last())) by {
            assert(p.take(k) =~= t.take(k));
            assert(t =~= p.push(t.last()));
            assert((p.take(k) + w).push(t.last()) =~= p.take(k) + w.push(t.last()));
        }
        assert forall|j: int| 0 <= j < w.push(t.last()).len() implies !is_ws(
            #[trigger] w.push(t.last())[j],
        ) by {
            if j < w.len() {
                assert(w.push(t.last())[j] == w[j]);
            }
        }
        if k > 0 {
            assert(t[k - 1] == p[k - 1]);
        }
        k
    } else {
        assert(t.take(t.len() as int) + Seq::<char>::empty() =~= t);
        if t.len() > 0 {
            assert(t[t.len() - 1] == t.last());
        }
        t.len() as int
    }
}

/// Word law: the last word of `s` is the run of non-whitespace characters
/// that ends `s` once its trailing whitespace is dropped: it holds no
/// whitespace, it ends the trimmed text, and what comes before it is empty
/// or ends in whitespace.
pub proof fn lemma_last_word(s: Seq<char>)
    ensures
        forall|j: int| 0 <= j < last_word(s).len() ==> !is_ws(#[trigger] last_word(s)[j]),
        exists|k: int|
            0 <= k <= trim_end(s).len() && trim_end(s) == trim_end(s).take(k) + last_word(s) && (k
                == 0 || is_ws(trim_end(s)[k - 1])),
{
    let k = lemma_tail_word_split(trim_end(s));
    assert(0 <= k <= trim_end(s).len() && trim_end(s) == trim_end(s).take(k) + last_word(s));
}

/// Whether a trimmed line opens a hit: one ASCII digit, then `". "`.
pub open spec fn is_header(t: Seq<char>) -> bool {
    t.len() >= 3 && 48 <= (t[0] as u32) <= 57 && t[1] == '.' && t[2] == ' '
}

/// A hit as its source and snippet.
pub type Hit = (Seq<char>, Seq<char>);

/// The reader's state: hits closed so far, the current source and snippet.
pub type ReadState = (Seq<Hit>, Seq<char>, Seq<char>);

/// One line read: blank lines are skipped; a header closes the current hit
/// (where it has a source) and opens one named by the header's last word;
/// any other line joins the snippet, on a line of its own.
pub open spec fn read_line(st: ReadState, line: Seq<char>) -> ReadState {
    let (hits, src, snippet) = st;
    let t = trim(line);
    if t.len() == 0 {
        st
    } else if is_header(t) {
        (if src.len() > 0 {
            hits.push((src, snippet))
        } else {
            hits
        }, last_word(t.skip(3)), Seq::empty())
    } else {
        (hits, src, (if snippet.len() > 0 {
            snippet.push('\n')
        } else {
            snippet
        }) + t)
    }
}

/// The state after reading the lines `ls`.
pub open spec fn read_lines(ls: Seq<Seq<char>>) -> ReadState
    decreases ls.len(),
{
    if ls.len() == 0 {
        (Seq::empty(), Seq::empty(), Seq::empty())
    } else {
        read_line(read_lines(ls.drop_last()), ls.last())
    }
}

/// The hits listed in `output`: every opened hit with a source, in order.
pub open spec fn listing_hits(output: Seq<char>) -> Seq<Hit> {
    let (hits, src, snippet) = read_lines(lines(output));
    if src.len() > 0 {
        hits.push((src, snippet))
    } else {
        hits
    }
}

/// The hits that `es` hold.
pub open spec fn hits_of(es: Seq<Entry>) -> Seq<Hit> {
    es.map_values(|e: Entry| (e.source@, e.snippet@))
}

proof fn lemma_tail_word_range(s: Seq<char>, lo: int, hi: int)
    requires
        0 <= lo <= hi <= s.len(),
        forall|j: int| lo <= j < hi ==> !is_ws(#[trigger] s[j]),
        lo == 0 || is_ws(s[lo - 1]),
    ensures
        tail_word(s.take(hi)) == s.subrange(lo, hi),
    decreases hi - lo,
{
    let t = s.take(hi);
    if hi > lo {
        assert(t.last() == s[hi - 1]);
        assert(t.drop_last() =~= s.take(hi - 1));
        lemma_tail_word_range(s, lo, hi - 1);
        assert(s.subrange(lo, hi) =~= s.subrange(lo, hi - 1).push(s[hi - 1]));
    } else {
        if hi > 0 {
            assert(t.last() == s[hi - 1]);
        }
        assert(s.subrange(lo, hi) =~= Seq::<char>::empty());
    }
}

proof fn lemma_trim_end_take(s: Seq<char>, hi: int)
    requires
        0 <= hi <= s.len(),
        forall|j: int| hi <= j < s.len() ==> is_ws(#[trigger] s[j]),
        hi == 0 || !is_ws(s[hi - 1]),
    ensures
        trim_end(s) == s.take(hi),
    decreases s.len() - hi,
{
    if hi < s.len() {
        assert(is_ws(s.last()));
        let t = s.drop_last();
        assert forall|j: int| hi <= j < t.len() implies is_ws(#[trigger] t[j]) by {
            assert(t[j] == s[j]);
        }
        lemma_trim_end_take(t, hi);
        assert(t.take(hi) =~= s.take(hi));
    } else {
        assert(s.take(hi) =~= s);
        if hi > 0 {
            assert(s.last() == s[hi - 1]);
        }
    }
}

/// The last whitespace-separated word of `v[from..to]`.
fn last_word_of(v: &Vec<char>, from: usize, to: usize) -> (r: Vec<char>)
    requires
        from <= to <= v@.len(),
    ensures
        r@ == last_word(v@.subrange(from as int, to as int)),
{
    let ghost s = v@.subrange(from as int, to as int);
    let mut hi: usize = to;
    while hi > from && is_whitespace(v[hi - 1])
        invariant
            from <= hi <= to <= v@.len(),
            s == v@.subrange(from as int, to as int),
            forall|j: int| hi - from <= j < s.len() ==> is_ws(#[trigger] s[j]),
        decreases hi - from,
    {
        hi = hi - 1;
    }
    proof {
        if hi > from {
            assert(s[hi - from - 1] == v@[hi - 1]);
        }
        lemma_trim_end_take(s, hi - from);
    }
    let mut lo: usize = hi;
    while lo > from && !is_whitespace(v[lo - 1])
        invariant
            from <= lo <= hi <= to <= v@.len(),
            s == v@.subrange(from as int, to as int),
            forall|j: int| lo - from <= j < hi - from ==> !is_ws(#[trigger] s[j]),
        decreases lo - from,
    {
        lo = lo - 1;
    }
    proof {
        if lo > from {
            assert(s[lo - from - 1] == v@[lo - 1]);
        }
        lemma_tail_word_range(s, lo - from, hi - from);
        assert(s.subrange(lo - from, hi - from) =~= v@.subrange(lo as int, hi as int));
    }
    let mut r: Vec<char> = Vec::new();
    let mut k: usize = lo;
    while k < hi
        invariant
            lo <= k <= hi <= v@.len(),
            r@ == v@.subrange(lo as int, k as int),
        decreases hi - k,
    {
        r.push(v[k]);
        k = k + 1;
        assert(r@ =~= v@.subrange(lo as int, k as int));
    }
    r
}

/// The hits as entries.
fn entry_of(src: &Vec<char>, snippet: &Vec<char>) -> (e: Entry)
    ensures
        e.source@ == src@,
        e.snippet@ == snippet@,
{
    Entry { source: string_of(src), snippet: string_of(snippet) }
}

/// The hits listed in the output of a search (see `read_line`).
pub fn parse(output: &str) -> (r: Vec<Entry>)
    ensures
        hits_of(r@) == listing_hits(output@),
{
    let v = chars_of(output);
    let ls = split_lines(&v);
    let mut entries: Vec<Entry> = Vec::new();
    let mut src: Vec<char> = Vec::new();
    let mut snippet: Vec<char> = Vec::new();
    let mut i: usize = 0;
    while i < ls.len()
        invariant
            i <= ls@.len(),
            views(ls@) == lines(output@),
            (hits_of(entries@), src@, snippet@) == read_lines(views(ls@).take(i as int)),
        decreases ls.len() - i,
    {
        let line = &ls[i];
        let ghost before = (hits_of(entries@), src@, snippet@);
        proof {
            assert(views(ls@).take(i + 1).drop_last() =~= views(ls@).take(i as int));
            assert(views(ls@).take(i + 1).last() == line@);
        }
        let (lo, hi) = trim_bounds(line);
        let ghost t = line@.subrange(lo as int, hi as int);
        if hi > lo {
            let n = hi - lo;
            let header = n >= 3 && (line[lo] as u32) >= 48 && (line[lo] as u32) <= 57 && line[lo
                + 1] == '.' && line[lo + 2] == ' ';
            proof {
                if n >= 3 {
                    assert(t[0] == line@[lo as int]);
                    assert(t[1] == line@[lo + 1]);
                    assert(t[2] == line@[lo + 2]);
                }
                assert(header == is_header(t));
            }
            if header {
                if src.len() > 0 {
                    let e = entry_of(&src, &snippet);
                    entries.push(e);
                    proof {
                        assert(hits_of(entries@) =~= before.0.push((src@, snippet@)));
                    }
                }
                let w = last_word_of(line, lo + 3, hi);
                proof {
                    assert(t.skip(3) =~= line@.subrange(lo + 3, hi as int));
                }
                src = w;
                snippet = Vec::new();
            } else {
                if snippet.len() > 0 {
                    snippet.push('\n');
                }
                let mut k: usize = lo;
                let ghost base = snippet@;
                while k < hi
                    invariant
                        lo <= k <= hi <= line@.len(),
                        snippet@ == base + line@.subrange(lo as int, k as int),
                    decreases hi - k,
                {
                    snippet.push(line[k]);
                    k = k + 1;
                    assert(snippet@ =~= base + line@.subrange(lo as int, k as int));
                }
            }
        }
        proof {
            assert((hits_of(entries@), src@, snippet@) == read_line(before, line@));
        }
        i = i + 1;
    }
    proof {
        assert(views(ls@).take(ls@.len() as int) =~= views(ls@));
    }
    if src.len() > 0 {
        let ghost before = hits_of(entries@);
        let e = entry_of(&src, &snippet);
        entries.push(e);
        assert(hits_of(entries@) =~= before.push((src@, snippet@)));
    }
    entries
}

proof fn lemma_read_lines_sources(ls: Seq<Seq<char>>)
    ensures
        forall|i: int| 0 <= i < read_lines(ls).0.len() ==> (#[trigger] read_lines(ls).0[i]).0.len()
            > 0,
    decreases ls.len(),
{
    if ls.len() > 0 {
        lemma_read_lines_sources(ls.drop_last());
        let prev = read_lines(ls.drop_last());
        let now = read_lines(ls);
        assert(now == read_line(prev, ls.last()));
        assert forall|i: int| 0 <= i < now.0.len() implies (#[trigger] now.0[i]).0.len() > 0 by {
            if i < prev.0.len() {
                assert(now.0[i] == prev.0[i]);
            }
        }
    }
}

/// Listing law: every hit read from a listing names a source file.
pub proof fn lemma_hits_have_sources(output: Seq<char>)
    ensures
        forall|i: int| 0 <= i < listing_hits(output).len() ==> (#[trigger] listing_hits(output)[i]).0.len()
            > 0,
{
    lemma_read_lines_sources(lines(output));
}

/// Whether the line `l`, trimmed, is a header of the listing: one ASCII
/// digit `0` to `9`, a dot and a space, as in `3.  combined=0.7  c.md`.
pub open spec fn header_line(l: Seq<char>) -> bool {
    let t = trim(l);
    t.len() >= 3 && ('0' as u32) <= (t[0] as u32) <= ('9' as u32) && t[1] == '.' && t[2] == ' '
}

/// The sources that the header lines among `ls` name, in order: the last
/// word after each header's number.
pub open spec fn header_sources(ls: Seq<Seq<char>>) -> Seq<Seq<char>>
    decreases ls.len(),
{
    if ls.len() == 0 {
        Seq::empty()
    } else if header_line(ls.last()) {
        header_sources(ls.drop_last()).push(last_word(trim(ls.last()).skip(3)))
    } else {
        header_sources(ls.drop_last())
    }
}

/// The sources of the hits `hs`, in order.
pub open spec fn hit_sources(hs: Seq<Hit>) -> Seq<Seq<char>> {
    hs.map_values(|h: Hit| h.0)
}

proof fn lemma_trim_end_last(u: Seq<char>)
    ensures
        trim_end(u).len() > 0 ==> !is_ws(trim_end(u).last()),
    decreases u.len(),
{
    if u.len() > 0 && is_ws(u.last()) {
        lemma_trim_end_last(u.drop_last());
    }
}

proof fn lemma_header_names_source(l: Seq<char>)
    requires
        header_line(l),
    ensures
        is_header(trim(l)),
        last_word(trim(l).skip(3)).len() > 0,
{
    let t = trim(l);
    lemma_trim_end_last(crate::text::trim_start(l));
    assert(t.len() >= 4);
    let u = t.skip(3);
    assert(u.last() == t.last());
    assert(trim_end(u) == u);
    assert(tail_word(u) == tail_word(u.drop_last()).push(u.last()));
}

proof fn lemma_read_lines_headers(ls: Seq<Seq<char>>)
    ensures
        ({
            let (hits, src, snippet) = read_lines(ls);
            if header_sources(ls).len() == 0 {
                hits.len() == 0 && src.len() == 0
            } else {
                src.len() > 0 && hit_sources(hits).push(src) == header_sources(ls)
            }
        }),
    decreases ls.len(),
{
    if ls.len() > 0 {
        let l = ls.last();
        let prev = ls.drop_last();
        lemma_read_lines_headers(prev);
        let (hits, src, snippet) = read_lines(prev);
        let t = trim(l);
        if header_line(l) {
            lemma_header_names_source(l);
            if src.len() > 0 {
                assert(hit_sources(hits.push((src, snippet))) =~= hit_sources(hits).push(src));
            } else {
                assert(hit_sources(hits) =~= Seq::<Seq<char>>::empty());
                assert(hit_sources(Seq::<Hit>::empty()).push(last_word(t.skip(3))) =~= header_sources(ls));
            }
        } else {
            assert(!is_header(t));
        }
    }
}

/// Listing law: every header line of a listing (a digit `0` to `9`, a dot
/// and a space) opens one hit, and nothing else does: the hits read from a
/// listing are named, in order, by the last words of its header lines.
pub proof fn lemma_hits_follow_headers(output: Seq<char>)
    ensures
        hit_sources(listing_hits(output)) == header_sources(lines(output)),
{
    lemma_read_lines_headers(lines(output));
    let (hits, src, snippet) = read_lines(lines(output));
    if src.len() > 0 {
        assert(hit_sources(hits.push((src, snippet))) =~= hit_sources(hits).push(src));
    } else {
        assert(hit_sources(hits) =~= Seq::<Seq<char>>::empty());
    }
}

// ---------------------------------------------------------------------
// Results
// ---------------------------------------------------------------------

/// The answer to a search for `query`: the hits of a successful run; else
/// no hits and the run's stderr, the reason it could not start, or
/// `task panic: ` and the panic's message.
pub fn search_result(query: &str, outcome: RunOutcome) -> (r: RagResult)
    ensures
        r.query@ == query@,
        match outcome {
            RunOutcome::Completed(Ok(out)) => if out.success {
                r.success && hits_of(r.results@) == listing_hits(out.stdout@) && r.error@.len()
                    == 0
            } else {
                !r.success && r.results@.len() == 0 && r.error == out.stderr
            },
            RunOutcome::Completed(Err(e)) => !r.success && r.results@.len() == 0 && r.error == e,
            RunOutcome::Panicked(m) => !r.success && r.results@.len() == 0 && r.error@
                == "task panic: "@ + m@,
        },
{
    let q = owned(query);
    match outcome {
        RunOutcome::Completed(Ok(out)) => {
            if out.success {
                let results = parse(out.stdout.as_str());
                RagResult { query: q, results, success: true, error: String::new() }
            } else {
                RagResult { query: q, results: Vec::new(), success: false, error: out.stderr }
            }
        },
        RunOutcome::Completed(Err(e)) => RagResult {
            query: q,
            results: Vec::new(),
            success: false,
            error: e,
        },
        RunOutcome::Panicked(m) => {
            let mut error = owned("task panic: ");
            push_str(&mut error, m.as_str());
            RagResult { query: q, results: Vec::new(), success: false, error }
        },
    }
}

/// The answer to ingesting `path`: no hits; success is the run's, with its
/// stderr as the error when it failed; or the reason it could not run.
pub fn ingest_result(path: &str, outcome: RunOutcome) -> (r: RagResult)
    ensures
        r.query@ == path@,
        r.results@.len() == 0,
        match outcome {
            RunOutcome::Completed(Ok(out)) => r.success == out.success && (if out.success {
                r.error@.len() == 0
            } else {
                r.error == out.stderr
            }),
            RunOutcome::Completed(Err(e)) => !r.success && r.error == e,
            RunOutcome::Panicked(m) => !r.success && r.error@ == "task panic: "@ + m@,
        },
{
    let q = owned(path);
    match outcome {
        RunOutcome::Completed(Ok(out)) => {
            let error = if out.success {
                String::new()
            } else {
                out.stderr
            };
            RagResult { query: q, results: Vec::new(), success: out.success, error }
        },
        RunOutcome::Completed(Err(e)) => RagResult {
            query: q,
            results: Vec::new(),
            success: false,
            error: e,
        },
        RunOutcome::Panicked(m) => {
            let mut error = owned("task panic: ");
            push_str(&mut error, m.as_str());
            RagResult { query: q, results: Vec::new(), success: false, error }
        },
    }
}

} // verus!
