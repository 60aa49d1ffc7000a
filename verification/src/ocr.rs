//! Reading screenshots: where WSL sees a Windows path, the OCR and image
//! description commands, cleaning what they print, the log line, and which
//! files a watcher has seen.
use vstd::prelude::*;
use crate::process::{slices, strs, ProcessRequest};
use crate::shell::{self, ShellOutput};
use crate::text::{
    can_cut_bytes, chars_of, is_ws, cut_bytes, cut_ok, cut_to_bytes, join, join_chars, lines, owned,
    push_str, replace_char, replace_chars, split_lines, string_of, string_of_range, trim,
    trim_bounds, utf8_len, views,
};

verus! {

/// What became of one screenshot.
#[derive(Debug, Clone)]
pub struct OcrResult {
    pub file: String,
    pub ocr_text: String,
    pub moondream: String,
    pub timestamp: String,
    pub success: bool,
}

// ---------------------------------------------------------------------
// Paths
// ---------------------------------------------------------------------

/// Where WSL sees the Windows path `path`: backslashes become slashes, and
/// a leading `C:` or `D:` becomes `/mnt/c` or `/mnt/d`.
pub open spec fn wsl_path(path: Seq<char>) -> Seq<char> {
    let p = replace_char(path, '\\', seq!['/']);
    if p.len() >= 2 && p[0] == 'C' && p[1] == ':' {
        "/mnt/c"@ + p.skip(2)
    } else if p.len() >= 2 && p[0] == 'D' && p[1] == ':' {
        "/mnt/d"@ + p.skip(2)
    } else {
        p
    }
}

/// Where WSL sees the Windows path `path` (see `wsl_path`).
pub fn win_to_wsl(path: &str) -> (r: String)
    ensures
        r@ == wsl_path(path@),
{
    let v = chars_of(path);
    let p = replace_chars(&v, '\\', "/");
    proof {
        reveal_strlit("/");
        assert("/"@ =~= seq!['/']);
    }
    let n = p.len();
    if n >= 2 && p[0] == 'C' && p[1] == ':' {
        let mut r = owned("/mnt/c");
        let rest = string_of_range(&p, 2, n);
        push_str(&mut r, rest.as_str());
        assert(p@.subrange(2, n as int) =~= p@.skip(2));
        r
    } else if n >= 2 && p[0] == 'D' && p[1] == ':' {
        let mut r = owned("/mnt/d");
        let rest = string_of_range(&p, 2, n);
        push_str(&mut r, rest.as_str());
        assert(p@.subrange(2, n as int) =~= p@.skip(2));
        r
    } else {
        string_of(&p)
    }
}

// ---------------------------------------------------------------------
// Terminal escape sequences
// ---------------------------------------------------------------------

/// Where the cleaner stands: in plain text, just after an escape character,
/// or inside a `ESC [` control sequence.
pub enum AnsiState {
    Text,
    Esc,
    Csi,
}

/// Whether `c` ends a control sequence: an ASCII letter or `?`.
pub open spec fn ends_csi(c: char) -> bool {
    let u = c as u32;
    (65 <= u <= 90) || (97 <= u <= 122) || c == '?'
}

/// One character read by the cleaner: text is kept; an escape followed by
/// `[` opens a control sequence, which runs up to and including its final
/// letter or `?`; an escape followed by anything else is kept.
pub open spec fn ansi_step(st: (Seq<char>, AnsiState), c: char) -> (Seq<char>, AnsiState) {
    let (out, s) = st;
    match s {
        AnsiState::Text => if c == '\x1b' {
            (out, AnsiState::Esc)
        } else {
            (out.push(c), AnsiState::Text)
        },
        AnsiState::Esc => if c == '[' {
            (out, AnsiState::Csi)
        } else if c == '\x1b' {
            (out.push('\x1b'), AnsiState::Esc)
        } else {
            (out.push('\x1b').push(c), AnsiState::Text)
        },
        AnsiState::Csi => if ends_csi(c) {
            (out, AnsiState::Text)
        } else {
            (out, AnsiState::Csi)
        },
    }
}

/// The cleaner's state after reading `s`.
pub open spec fn ansi_fold(s: Seq<char>) -> (Seq<char>, AnsiState)
    decreases s.len(),
{
    if s.len() == 0 {
        (Seq::empty(), AnsiState::Text)
    } else {
        ansi_step(ansi_fold(s.drop_last()), s.last())
    }
}

/// `s` without its terminal control sequences; an escape at the very end
/// is kept.
pub open spec fn without_ansi(s: Seq<char>) -> Seq<char> {
    let (out, st) = ansi_fold(s);
    if st is Esc {
        out.push('\x1b')
    } else {
        out
    }
}

fn is_csi_end(c: char) -> (b: bool)
    ensures
        b == ends_csi(c),
{
    let u = c as u32;
    (65 <= u && u <= 90) || (97 <= u && u <= 122) || c == '?'
}

/// `s` without its terminal control sequences (see `without_ansi`).
pub fn strip_ansi(s: &str) -> (r: String)
    ensures
        r@ == without_ansi(s@),
{
    let v = chars_of(s);
    let mut out = String::new();
    let mut st = AnsiState::Text;
    let mut i: usize = 0;
    while i < v.len()
        invariant
            i <= v@.len(),
            (out@, st) == ansi_fold(v@.take(i as int)),
        decreases v.len() - i,
    {
        let c = v[i];
        proof {
            assert(v@.take(i + 1).drop_last() =~= v@.take(i as int));
            assert(v@.take(i + 1).last() == c);
        }
        match st {
            AnsiState::Text => {
                if c == '\x1b' {
                    st = AnsiState::Esc;
                } else {
                    out.push(c);
                }
            },
            AnsiState::Esc => {
                if c == '[' {
                    st = AnsiState::Csi;
                } else if c == '\x1b' {
                    out.push('\x1b');
                } else {
                    out.push('\x1b');
                    out.push(c);
                    st = AnsiState::Text;
                }
            },
            AnsiState::Csi => {
                if is_csi_end(c) {
                    st = AnsiState::Text;
                }
            },
        }
        i = i + 1;
    }
    assert(v@.take(v@.len() as int) =~= v@);
    if let AnsiState::Esc = st {
        out.push('\x1b');
    }
    out
}

proof fn lemma_ansi_plain(s: Seq<char>)
    requires
        forall|i: int| 0 <= i < s.len() ==> s[i] != '\x1b',
    ensures
        ansi_fold(s) == (s, AnsiState::Text),
    decreases s.len(),
{
    if s.len() > 0 {
        lemma_ansi_plain(s.drop_last());
        assert(s.drop_last().push(s.last()) =~= s);
    }
}

/// Cleaning law: text that holds no escape character comes out unchanged.
pub proof fn lemma_strip_ansi_plain_text(s: Seq<char>)
    requires
        forall|i: int| 0 <= i < s.len() ==> s[i] != '\x1b',
    ensures
        without_ansi(s) == s,
{
    lemma_ansi_plain(s);
}

/// The cleaner's state after reading `s` from the state `st`.
spec fn ansi_from(st: (Seq<char>, AnsiState), s: Seq<char>) -> (Seq<char>, AnsiState)
    decreases s.len(),
{
    if s.len() == 0 {
        st
    } else {
        ansi_step(ansi_from(st, s.drop_last()), s.last())
    }
}

proof fn lemma_ansi_fold_from(s: Seq<char>)
    ensures
        ansi_fold(s) == ansi_from((Seq::empty(), AnsiState::Text), s),
    decreases s.len(),
{
    if s.len() > 0 {
        lemma_ansi_fold_from(s.drop_last());
    }
}

proof fn lemma_ansi_from_append(st: (Seq<char>, AnsiState), a: Seq<char>, b: Seq<char>)
    ensures
        ansi_from(st, a + b) == ansi_from(ansi_from(st, a), b),
    decreases b.len(),
{
    if b.len() == 0 {
        assert(a + b =~= a);
    } else {
        lemma_ansi_from_append(st, a, b.drop_last());
        assert((a + b).drop_last() =~= a + b.drop_last());
        assert((a + b).last() == b.last());
    }
}

proof fn lemma_ansi_from_prefix(out: Seq<char>, st: AnsiState, s: Seq<char>)
    ensures
        ansi_from((out, st), s) == (out + ansi_from((Seq::empty(), st), s).0, ansi_from(
            (Seq::empty(), st),
            s,
        ).1),
    decreases s.len(),
{
    if s.len() == 0 {
        assert(out + Seq::<char>::empty() =~= out);
    } else {
        lemma_ansi_from_prefix(out, st, s.drop_last());
        let o = ansi_from((Seq::empty(), st), s.drop_last()).0;
        let c = s.last();
        assert((out + o).push(c) =~= out + o.push(c));
        assert((out + o).push('\x1b') =~= out + o.push('\x1b'));
        assert((out + o).push('\x1b').push(c) =~= out + o.push('\x1b').push(c));
    }
}

/// Whether `p` holds only the parameters of a control sequence: ASCII
/// digits and `;`.
pub open spec fn csi_params(p: Seq<char>) -> bool {
    forall|i: int| 0 <= i < p.len() ==> ('0' <= #[trigger] p[i] <= '9' || p[i] == ';')
}

/// Whether `c` is an ASCII letter.
pub open spec fn ascii_letter(c: char) -> bool {
    ('A' <= c <= 'Z') || ('a' <= c <= 'z')
}

/// Cleaning law: a control sequence ends at the first ASCII letter or `?`
/// after its `ESC [`, and at nothing else: digits, `;` and other marks stay
/// inside it.
pub proof fn lemma_csi_ends(c: char)
    ensures
        ends_csi(c) <==> (ascii_letter(c) || c == '?'),
        ('0' <= c <= '9' || c == ';') ==> !ends_csi(c),
{
}

proof fn lemma_ansi_params(out: Seq<char>, p: Seq<char>)
    requires
        csi_params(p),
    ensures
        ansi_from((out, AnsiState::Csi), p) == (out, AnsiState::Csi),
    decreases p.len(),
{
    if p.len() > 0 {
        lemma_ansi_params(out, p.drop_last());
        assert(p.last() == p[p.len() - 1]);
    }
}

/// Cleaning law: plain text `x`, then a control sequence `ESC [` with
/// parameters `p` and final letter `f`, then any text `y`, is cleaned to
/// `x` followed by `y` cleaned.
pub proof fn lemma_strip_ansi_drops_sequence(x: Seq<char>, p: Seq<char>, f: char, y: Seq<char>)
    requires
        forall|i: int| 0 <= i < x.len() ==> x[i] != '\x1b',
        csi_params(p),
        ascii_letter(f),
    ensures
        without_ansi(x + (seq!['\x1b', '['] + p + seq![f]) + y) == x + without_ansi(y),
{
    let c = seq!['\x1b', '['] + p + seq![f];
    let t = (Seq::<char>::empty(), AnsiState::Text);
    lemma_ansi_fold_from(x + c + y);
    lemma_ansi_fold_from(x);
    lemma_ansi_fold_from(y);
    lemma_ansi_plain(x);
    lemma_ansi_from_append(t, x + c, y);
    lemma_ansi_from_append(t, x, c);
    // through `ESC [`
    let open = seq!['\x1b', '['];
    lemma_ansi_from_append(ansi_from(t, x), open + p, seq![f]);
    lemma_ansi_from_append(ansi_from(t, x), open, p);
    reveal_with_fuel(ansi_from, 3);
    assert(open.drop_last() =~= seq!['\x1b']);
    assert(seq!['\x1b'].drop_last() =~= Seq::<char>::empty());
    assert(ansi_from((x, AnsiState::Text), open) == (x, AnsiState::Csi));
    lemma_ansi_params(x, p);
    assert(seq![f].drop_last() =~= Seq::<char>::empty());
    assert(ansi_from((x, AnsiState::Csi), seq![f]) == (x, AnsiState::Text));
    assert(ansi_from(t, x + c) == (x, AnsiState::Text));
    lemma_ansi_from_prefix(x, AnsiState::Text, y);
    let (oy, sy) = ansi_fold(y);
    assert((x + oy).push('\x1b') =~= x + oy.push('\x1b'));
}

// ---------------------------------------------------------------------
// OCR and image description
// ---------------------------------------------------------------------

/// The OCR run of the image at the Windows path `path`, killed after 10 s.
pub fn tesseract_request(path: &str) -> (r: ProcessRequest)
    ensures
        r.program@ == crate::shell::wsl_exe(),
        strs(r.args@) == seq!["--"@, "tesseract"@, wsl_path(path@), "stdout"@, "-l"@, "eng"@],
        r.timeout_secs == Some(10u64),
{
    let w = win_to_wsl(path);
    let args: [&str; 5] = ["tesseract", w.as_str(), "stdout", "-l", "eng"];
    let r = shell::execute_timeout(&args, 10);
    assert(slices(args@) =~= seq!["tesseract"@, wsl_path(path@), "stdout"@, "-l"@, "eng"@]);
    assert(strs(r.args@) =~= seq!["--"@, "tesseract"@, wsl_path(path@), "stdout"@, "-l"@, "eng"@]);
    r
}

/// The lines of `s` that hold more than whitespace.
pub open spec fn nonblank(ls: Seq<Seq<char>>) -> Seq<Seq<char>>
    decreases ls.len(),
{
    if ls.len() == 0 {
        Seq::empty()
    } else if trim(ls.last()).len() > 0 {
        nonblank(ls.drop_last()).push(ls.last())
    } else {
        nonblank(ls.drop_last())
    }
}

/// Whether `l` holds a character that is not whitespace.
pub open spec fn has_text(l: Seq<char>) -> bool {
    exists|j: int| 0 <= j < l.len() && !is_ws(#[trigger] l[j])
}

proof fn lemma_trim_start_text(s: Seq<char>)
    ensures
        crate::text::trim_start(s).len() > 0 <==> has_text(s),
        crate::text::trim_start(s).len() > 0 ==> !is_ws(crate::text::trim_start(s)[0]),
    decreases s.len(),
{
    if s.len() > 0 && is_ws(s[0]) {
        lemma_trim_start_text(s.drop_first());
        if has_text(s) {
            let j = choose|j: int| 0 <= j < s.len() && !is_ws(#[trigger] s[j]);
            assert(s.drop_first()[j - 1] == s[j]);
        }
        if has_text(s.drop_first()) {
            let j = choose|j: int| 0 <= j < s.drop_first().len() && !is_ws(#[trigger] s.drop_first()[j]);
            assert(s[j + 1] == s.drop_first()[j]);
        }
    } else if s.len() > 0 {
        assert(!is_ws(s[0]));
    }
}

proof fn lemma_trim_end_text(u: Seq<char>)
    requires
        u.len() > 0,
        !is_ws(u[0]),
    ensures
        crate::text::trim_end(u).len() > 0,
    decreases u.len(),
{
    if is_ws(u.last()) {
        assert(u.len() >= 2);
        assert(u.drop_last()[0] == u[0]);
        lemma_trim_end_text(u.drop_last());
    }
}

proof fn lemma_trim_has_text(l: Seq<char>)
    ensures
        trim(l).len() > 0 <==> has_text(l),
{
    lemma_trim_start_text(l);
    let u = crate::text::trim_start(l);
    if u.len() > 0 {
        lemma_trim_end_text(u);
    } else {
        assert(crate::text::trim_end(u) == u);
    }
}

/// OCR law: the lines kept for the OCR text are exactly those that hold a
/// character other than whitespace (a line of spaces, tabs or form feeds
/// is dropped), in their order.
pub proof fn lemma_nonblank_keeps_text_lines(ls: Seq<Seq<char>>)
    ensures
        nonblank(ls) == ls.filter(|l: Seq<char>| has_text(l)),
    decreases ls.len(),
{
    reveal(Seq::filter);
    if ls.len() > 0 {
        lemma_nonblank_keeps_text_lines(ls.drop_last());
        lemma_trim_has_text(ls.last());
    }
}

/// The OCR text before it is cut: the lines that hold more than
/// whitespace, joined by single spaces.
pub open spec fn ocr_joined(stdout: Seq<char>) -> Seq<char> {
    join(nonblank(lines(stdout)), seq![' '])
}

/// The OCR text of a run: at most its first 500 bytes; nothing where the
/// run failed.
pub open spec fn ocr_text_of(result: Result<ShellOutput, String>) -> Seq<char> {
    match result {
        Ok(out) => cut_bytes(ocr_joined(out.stdout@), 500),
        Err(_) => Seq::empty(),
    }
}

/// Whether the OCR text of a run can be cut at byte 500 (see `cut_ok`).
pub open spec fn ocr_cut_ok(result: Result<ShellOutput, String>) -> bool {
    match result {
        Ok(out) => cut_ok(ocr_joined(out.stdout@), 500),
        Err(_) => true,
    }
}

fn ocr_joined_chars(stdout: &str) -> (r: Vec<char>)
    ensures
        r@ == ocr_joined(stdout@),
{
    let v = chars_of(stdout);
    let ls = split_lines(&v);
    let mut kept: Vec<Vec<char>> = Vec::new();
    let mut i: usize = 0;
    while i < ls.len()
        invariant
            i <= ls@.len(),
            views(ls@) == lines(stdout@),
            views(kept@) == nonblank(views(ls@).take(i as int)),
        decreases ls.len() - i,
    {
        let (lo, hi) = trim_bounds(&ls[i]);
        let ghost before = views(kept@);
        proof {
            assert(views(ls@).take(i + 1).drop_last() =~= views(ls@).take(i as int));
            assert(views(ls@).take(i + 1).last() == ls@[i as int]@);
        }
        if hi > lo {
            kept.push(ls[i].clone());
            assert(views(kept@) =~= before.push(ls@[i as int]@));
        }
        i = i + 1;
    }
    assert(views(ls@).take(ls@.len() as int) =~= views(ls@));
    let r = join_chars(&kept, " ");
    proof {
        reveal_strlit(" ");
        assert(" "@ =~= seq![' ']);
    }
    r
}

/// Whether `tesseract_text` may be called on this run's result.
pub fn tesseract_cut_ok(result: &Result<ShellOutput, String>) -> (r: bool)
    ensures
        r == ocr_cut_ok(*result),
{
    match result {
        Ok(out) => {
            let j = ocr_joined_chars(out.stdout.as_str());
            can_cut_bytes(&j, 500)
        },
        Err(_) => true,
    }
}

/// The OCR text of a run (see `ocr_text_of`). Where byte 500 falls inside
/// a character the cut is not defined, so such output is left out.
pub fn tesseract_text(result: &Result<ShellOutput, String>) -> (r: String)
    requires
        ocr_cut_ok(*result),
    ensures
        r@ == ocr_text_of(*result),
        utf8_len(r@) <= 500,
{
    match result {
        Ok(out) => {
            let j = ocr_joined_chars(out.stdout.as_str());
            let c = cut_to_bytes(j, 500);
            string_of(&c)
        },
        Err(_) => String::new(),
    }
}

/// The command line that asks the `moondream` model to describe an image.
pub open spec fn moondream_command_text(path: Seq<char>) -> Seq<char> {
    "ollama run moondream 'describe "@ + wsl_path(path) + "' 2>/dev/null"@
}

/// The image description run for the Windows path `path`, by a login
/// shell, killed after 10 s.
pub fn moondream_request(path: &str) -> (r: ProcessRequest)
    ensures
        r.program@ == crate::shell::wsl_exe(),
        strs(r.args@) == seq!["--"@, "bash"@, "-l"@, "-c"@, moondream_command_text(path@)],
        r.timeout_secs == Some(10u64),
{
    let w = win_to_wsl(path);
    let mut cmd = owned("ollama run moondream 'describe ");
    push_str(&mut cmd, w.as_str());
    push_str(&mut cmd, "' 2>/dev/null");
    let args: [&str; 4] = ["bash", "-l", "-c", cmd.as_str()];
    let r = shell::execute_timeout(&args, 10);
    assert(slices(args@) =~= seq!["bash"@, "-l"@, "-c"@, moondream_command_text(path@)]);
    assert(strs(r.args@) =~= seq!["--"@, "bash"@, "-l"@, "-c"@, moondream_command_text(path@)]);
    r
}

/// The description of a run: its output without control sequences,
/// trimmed, at most its first 300 bytes; nothing where the run failed.
pub open spec fn description_of(result: Result<ShellOutput, String>) -> Seq<char> {
    match result {
        Ok(out) => cut_bytes(trim(without_ansi(out.stdout@)), 300),
        Err(_) => Seq::empty(),
    }
}

/// Whether the description of a run can be cut at byte 300.
pub open spec fn description_cut_ok(result: Result<ShellOutput, String>) -> bool {
    match result {
        Ok(out) => cut_ok(trim(without_ansi(out.stdout@)), 300),
        Err(_) => true,
    }
}

fn cleaned_chars(stdout: &str) -> (r: Vec<char>)
    ensures
        r@ == trim(without_ansi(stdout@)),
{
    let cleaned = strip_ansi(stdout);
    let v = chars_of(cleaned.as_str());
    let (lo, hi) = trim_bounds(&v);
    let mut r: Vec<char> = Vec::new();
    let mut k: usize = lo;
    while k < hi
        invariant
            lo <= k <= hi <= v@.len(),
            r@ == v@.subrange(lo as int, k as int),
        decreases hi - k,
    {
        r.push(v[k]);
        k = k + 1;
        assert(r@ =~= v@.subrange(lo as int, k as int));
    }
    r
}

/// Whether `moondream_text` may be called on this run's result.
pub fn moondream_cut_ok(result: &Result<ShellOutput, String>) -> (r: bool)
    ensures
        r == description_cut_ok(*result),
{
    match result {
        Ok(out) => {
            let c = cleaned_chars(out.stdout.as_str());
            can_cut_bytes(&c, 300)
        },
        Err(_) => true,
    }
}

/// The description of a run (see `description_of`).
pub fn moondream_text(result: &Result<ShellOutput, String>) -> (r: String)
    requires
        description_cut_ok(*result),
    ensures
        r@ == description_of(*result),
        utf8_len(r@) <= 300,
{
    match result {
        Ok(out) => {
            let c = cleaned_chars(out.stdout.as_str());
            let cut = cut_to_bytes(c, 300);
            string_of(&cut)
        },
        Err(_) => String::new(),
    }
}

// ---------------------------------------------------------------------
// The log and the result
// ---------------------------------------------------------------------

/// `s` fit for one cell of a Markdown table row: `|` becomes `/` and line
/// breaks become spaces.
pub open spec fn cell(s: Seq<char>) -> Seq<char> {
    replace_char(replace_char(s, '|', seq!['/']), '\n', seq![' '])
}

/// The log line for one screenshot: `| ts | file | ocr | description |`.
pub open spec fn log_line_text(ts: Seq<char>, file: Seq<char>, ocr: Seq<char>, moondream: Seq<char>) -> Seq<char> {
    "| "@ + ts + " | "@ + file + " | "@ + cell(ocr) + " | "@ + cell(moondream) + " |\n"@
}

fn cell_string(s: &str) -> (r: String)
    ensures
        r@ == cell(s@),
{
    let v = chars_of(s);
    let a = replace_chars(&v, '|', "/");
    let b = replace_chars(&a, '\n', " ");
    proof {
        reveal_strlit("/");
        reveal_strlit(" ");
        assert("/"@ =~= seq!['/']);
        assert(" "@ =~= seq![' ']);
    }
    string_of(&b)
}

/// The log line for one screenshot (see `log_line_text`).
pub fn log_line(ts: &str, file: &str, ocr: &str, moondream: &str) -> (r: String)
    ensures
        r@ == log_line_text(ts@, file@, ocr@, moondream@),
{
    let mut r = owned("| ");
    push_str(&mut r, ts);
    push_str(&mut r, " | ");
    push_str(&mut r, file);
    push_str(&mut r, " | ");
    let o = cell_string(ocr);
    push_str(&mut r, o.as_str());
    push_str(&mut r, " | ");
    let m = cell_string(moondream);
    push_str(&mut r, m.as_str());
    push_str(&mut r, " |\n");
    r
}

/// What became of a screenshot: a success where either reader produced
/// text.
pub fn screenshot_result(file: String, ocr_text: String, moondream: String, timestamp: String) -> (r: OcrResult)
    ensures
        r.file == file,
        r.ocr_text == ocr_text,
        r.moondream == moondream,
        r.timestamp == timestamp,
        r.success == (ocr_text@.len() > 0 || moondream@.len() > 0),
{
    let success = !ocr_text.as_str().is_empty() || !moondream.as_str().is_empty();
    OcrResult { file, ocr_text, moondream, timestamp, success }
}

// ---------------------------------------------------------------------
// Which files the watcher has seen
// ---------------------------------------------------------------------

/// `s` up to its first `|`.
pub open spec fn up_to_bar(s: Seq<char>) -> Seq<char>
    decreases s.len(),
{
    if s.len() == 0 || s[0] == '|' {
        Seq::empty()
    } else {
        seq![s[0]] + up_to_bar(s.drop_first())
    }
}

/// `s` after its first `|`, if it has one.
pub open spec fn after_bar(s: Seq<char>) -> Option<Seq<char>>
    decreases s.len(),
{
    if s.len() == 0 {
        None
    } else if s[0] == '|' {
        Some(s.drop_first())
    } else {
        after_bar(s.drop_first())
    }
}

/// The second `|`-separated field of a line (`l.split('|').nth(1)`).
pub open spec fn second_field(l: Seq<char>) -> Option<Seq<char>> {
    match after_bar(l) {
        Some(rest) => Some(up_to_bar(rest)),
        None => None,
    }
}

/// What the second `|` field of each log line holds, trimmed, for each line
/// that has one. In a line `log_line` writes, that field is the timestamp
/// (see `lemma_log_line_reads_back_timestamp`), not the file's name.
pub open spec fn names_in(ls: Seq<Seq<char>>) -> Seq<Seq<char>>
    decreases ls.len(),
{
    if ls.len() == 0 {
        Seq::empty()
    } else {
        match second_field(ls.last()) {
            Some(f) => names_in(ls.drop_last()).push(trim(f)),
            None => names_in(ls.drop_last()),
        }
    }
}

proof fn lemma_after_bar_index(s: Seq<char>, k: int)
    requires
        0 <= k <= s.len(),
        forall|j: int| 0 <= j < k ==> s[j] != '|',
    ensures
        after_bar(s) == after_bar(s.skip(k)),
        up_to_bar(s) == s.take(k) + up_to_bar(s.skip(k)),
    decreases k,
{
    if k > 0 {
        let t = s.drop_first();
        assert forall|j: int| 0 <= j < k - 1 implies t[j] != '|' by {
            assert(t[j] == s[j + 1]);
        }
        lemma_after_bar_index(t, k - 1);
        assert(t.skip(k - 1) =~= s.skip(k));
        assert(s.take(k) =~= seq![s[0]] + t.take(k - 1));
    } else {
        assert(s.skip(0) =~= s);
        assert(s.take(0) =~= Seq::<char>::empty());
    }
}

/// The second field of `l`, if it has one.
fn second_field_of(l: &Vec<char>) -> (r: Option<Vec<char>>)
    ensures
        match second_field(l@) {
            Some(f) => r matches Some(v) && v@ == f,
            None => r is None,
        },
{
    let n = l.len();
    let mut i: usize = 0;
    while i < n && l[i] != '|'
        invariant
            i <= n == l@.len(),
            forall|j: int| 0 <= j < i ==> l@[j] != '|',
        decreases n - i,
    {
        i = i + 1;
    }
    proof {
        lemma_after_bar_index(l@, i as int);
    }
    if i == n {
        assert(l@.skip(i as int) =~= Seq::<char>::empty());
        return None;
    }
    let ghost rest = l@.skip(i + 1);
    proof {
        assert(l@.skip(i as int)[0] == '|');
        assert(l@.skip(i as int).drop_first() =~= rest);
    }
    let mut k: usize = i + 1;
    while k < n && l[k] != '|'
        invariant
            i + 1 <= k <= n == l@.len(),
            rest == l@.skip(i + 1),
            forall|j: int| 0 <= j < k - (i + 1) ==> rest[j] != '|',
        decreases n - k,
    {
        assert(rest[k - (i + 1)] == l@[k as int]);
        k = k + 1;
    }
    proof {
        let m = k - (i + 1);
        lemma_after_bar_index(rest, m);
        let tail = rest.skip(m);
        if k < n {
            assert(tail[0] == l@[k as int]);
        }
        assert(up_to_bar(tail) =~= Seq::<char>::empty());
        assert(rest.take(m) =~= l@.subrange(i + 1, k as int));
    }
    let mut f: Vec<char> = Vec::new();
    let mut j: usize = i + 1;
    while j < k
        invariant
            i + 1 <= j <= k <= n == l@.len(),
            f@ == l@.subrange(i + 1, j as int),
        decreases k - j,
    {
        f.push(l[j]);
        j = j + 1;
        assert(f@ =~= l@.subrange(i + 1, j as int));
    }
    Some(f)
}

/// The trimmed second `|` fields of the log text `log`, in order (see
/// `names_in`): the names the watcher counts as already read.
pub fn known_files(log: &str) -> (r: Vec<String>)
    ensures
        strs(r@) == names_in(lines(log@)),
{
    let v = chars_of(log);
    let ls = split_lines(&v);
    let mut names: Vec<String> = Vec::new();
    let mut i: usize = 0;
    while i < ls.len()
        invariant
            i <= ls@.len(),
            views(ls@) == lines(log@),
            strs(names@) == names_in(views(ls@).take(i as int)),
        decreases ls.len() - i,
    {
        let ghost before = strs(names@);
        proof {
            assert(views(ls@).take(i + 1).drop_last() =~= views(ls@).take(i as int));
            assert(views(ls@).take(i + 1).last() == ls@[i as int]@);
        }
        match second_field_of(&ls[i]) {
            Some(f) => {
                let (lo, hi) = trim_bounds(&f);
                let name = string_of_range(&f, lo, hi);
                names.push(name);
                assert(strs(names@) =~= before.push(trim(f@)));
            },
            None => {},
        }
        i = i + 1;
    }
    assert(views(ls@).take(ls@.len() as int) =~= views(ls@));
    names
}

/// Whether `s` holds no `c`.
pub open spec fn lacks(s: Seq<char>, c: char) -> bool {
    forall|i: int| 0 <= i < s.len() ==> s[i] != c
}

proof fn lemma_fold_without_newline(s: Seq<char>)
    requires
        lacks(s, '\n'),
    ensures
        crate::text::line_fold(s) == (Seq::<Seq<char>>::empty(), s),
    decreases s.len(),
{
    if s.len() > 0 {
        lemma_fold_without_newline(s.drop_last());
        assert(s.drop_last().push(s.last()) =~= s);
    }
}

proof fn lemma_replace_lacks(s: Seq<char>, c: char, rep: Seq<char>, d: char)
    requires
        lacks(rep, d),
        c == d || lacks(s, d),
    ensures
        lacks(replace_char(s, c, rep), d),
    decreases s.len(),
{
    if s.len() > 0 {
        let p = s.drop_last();
        assert(c == d || lacks(p, d)) by {
            if c != d {
                assert forall|i: int| 0 <= i < p.len() implies p[i] != d by {
                    assert(p[i] == s[i]);
                }
            }
        }
        lemma_replace_lacks(p, c, rep, d);
        let piece = if s.last() == c {
            rep
        } else {
            seq![s.last()]
        };
        let r = replace_char(s, c, rep);
        assert(r == replace_char(p, c, rep) + piece);
        assert forall|i: int| 0 <= i < r.len() implies r[i] != d by {
            if i < replace_char(p, c, rep).len() {
                assert(r[i] == replace_char(p, c, rep)[i]);
            } else {
                assert(r[i] == piece[i - replace_char(p, c, rep).len()]);
                if s.last() != c {
                    assert(s.last() == s[s.len() - 1]);
                }
            }
        }
    }
}

proof fn lemma_up_to_bar_prefix(a: Seq<char>, b: Seq<char>)
    requires
        lacks(a, '|'),
    ensures
        up_to_bar(a + b) == a + up_to_bar(b),
    decreases a.len(),
{
    if a.len() > 0 {
        let t = a.drop_first();
        assert forall|i: int| 0 <= i < t.len() implies t[i] != '|' by {
            assert(t[i] == a[i + 1]);
        }
        lemma_up_to_bar_prefix(t, b);
        assert((a + b).drop_first() =~= t + b);
        assert((a + b)[0] == a[0]);
        assert(a + up_to_bar(b) =~= seq![a[0]] + (t + up_to_bar(b)));
    } else {
        assert(a + b =~= b);
        assert(a + up_to_bar(b) =~= up_to_bar(b));
    }
}

proof fn lemma_trim_start_append(x: Seq<char>, y: Seq<char>)
    ensures
        crate::text::trim_start(x).len() > 0 ==> crate::text::trim_start(x + y)
            == crate::text::trim_start(x) + y,
        crate::text::trim_start(x).len() == 0 ==> crate::text::trim_start(x + y)
            == crate::text::trim_start(y),
    decreases x.len(),
{
    if x.len() > 0 {
        assert((x + y)[0] == x[0]);
        if crate::text::is_ws(x[0]) {
            lemma_trim_start_append(x.drop_first(), y);
            assert((x + y).drop_first() =~= x.drop_first() + y);
        }
    } else {
        assert(x + y =~= y);
    }
}

proof fn lemma_trim_end_space(z: Seq<char>)
    ensures
        crate::text::trim_end(z.push(' ')) == crate::text::trim_end(z),
{
    assert(z.push(' ').drop_last() =~= z);
}

proof fn lemma_trim_padded(x: Seq<char>)
    ensures
        trim(seq![' '] + x + seq![' ']) == trim(x),
{
    let padded = seq![' '] + x + seq![' '];
    assert(padded[0] == ' ');
    assert(padded.drop_first() =~= x + seq![' ']);
    assert(crate::text::trim_start(padded) == crate::text::trim_start(x + seq![' ']));
    lemma_trim_start_append(x, seq![' ']);
    let ts = crate::text::trim_start(x);
    if ts.len() > 0 {
        assert(ts + seq![' '] =~= ts.push(' '));
        lemma_trim_end_space(ts);
    } else {
        let sp = seq![' '];
        assert(sp.drop_first() =~= Seq::<char>::empty());
        assert(crate::text::trim_start(Seq::<char>::empty()) =~= Seq::<char>::empty());
        assert(crate::text::trim_start(sp) =~= Seq::<char>::empty());
        assert(crate::text::trim_end(Seq::<char>::empty()) =~= Seq::<char>::empty());
    }
}

/// Watcher law: reading back one log line names what stands in its second
/// field, which is the timestamp (trimmed), not the file. So a restarted
/// watcher does not know the files it logged. Stated for a timestamp with
/// no `|` or line break and a file name with no line break.
pub proof fn lemma_log_line_reads_back_timestamp(
    ts: Seq<char>,
    file: Seq<char>,
    ocr: Seq<char>,
    moondream: Seq<char>,
)
    requires
        lacks(ts, '|'),
        lacks(ts, '\n'),
        lacks(file, '\n'),
    ensures
        names_in(lines(log_line_text(ts, file, ocr, moondream))) == seq![trim(ts)],
{
    let co = cell(ocr);
    let cm = cell(moondream);
    assert(lacks(seq![' '], '\n'));
    lemma_replace_lacks(replace_char(ocr, '|', seq!['/']), '\n', seq![' '], '\n');
    lemma_replace_lacks(replace_char(moondream, '|', seq!['/']), '\n', seq![' '], '\n');
    reveal_strlit("| ");
    reveal_strlit(" | ");
    reveal_strlit(" |\n");
    let body = "| "@ + ts + " | "@ + file + " | "@ + co + " | "@ + cm + " |"@;
    reveal_strlit(" |");
    let line = log_line_text(ts, file, ocr, moondream);
    assert(line =~= body.push('\n'));
    assert(lacks(body, '\n')) by {
        assert forall|i: int| 0 <= i < body.len() implies body[i] != '\n' by {
            let l1 = 2 + ts.len();
            let l2 = l1 + 3 + file.len();
            let l3 = l2 + 3 + co.len();
            let l4 = l3 + 3 + cm.len();
            if i < 2 {
            } else if i < l1 {
                assert(body[i] == ts[i - 2]);
            } else if i < l1 + 3 {
            } else if i < l2 {
                assert(body[i] == file[i - l1 - 3]);
            } else if i < l2 + 3 {
            } else if i < l3 {
                assert(body[i] == co[i - l2 - 3]);
            } else if i < l3 + 3 {
            } else if i < l4 {
                assert(body[i] == cm[i - l3 - 3]);
            } else {
            }
        }
    }
    lemma_fold_without_newline(body);
    assert(body.push('\n').drop_last() =~= body);
    assert(body.len() > 0 && body.last() == '|');
    assert(crate::text::strip_cr(body) == body);
    assert(lines(line) =~= seq![body]);
    // The second field.
    assert(body[0] == '|');
    let rest = body.drop_first();
    assert(after_bar(body) == Some(rest));
    let tail = "| "@ + file + " | "@ + co + " | "@ + cm + " |"@;
    assert(rest =~= (seq![' '] + ts + seq![' ']) + tail);
    assert(lacks(seq![' '] + ts + seq![' '], '|')) by {
        let a = seq![' '] + ts + seq![' '];
        assert forall|i: int| 0 <= i < a.len() implies a[i] != '|' by {
            if 0 < i < a.len() - 1 {
                assert(a[i] == ts[i - 1]);
            }
        }
    }
    lemma_up_to_bar_prefix(seq![' '] + ts + seq![' '], tail);
    assert(tail[0] == '|');
    assert(up_to_bar(tail) =~= Seq::<char>::empty());
    assert(second_field(body) == Some(seq![' '] + ts + seq![' ']));
    lemma_trim_padded(ts);
    let ls = seq![body];
    assert(ls.drop_last() =~= Seq::<Seq<char>>::empty());
    assert(ls.last() == body);
    assert(names_in(Seq::<Seq<char>>::empty()) =~= Seq::<Seq<char>>::empty());
    assert(names_in(ls) =~= seq![trim(ts)]);
}

/// Path law: the path handed to WSL holds no backslash.
pub proof fn lemma_wsl_path_has_no_backslash(path: Seq<char>)
    ensures
        lacks(wsl_path(path), '\\'),
{
    assert(lacks(seq!['/'], '\\'));
    lemma_replace_lacks(path, '\\', seq!['/'], '\\');
    let p = replace_char(path, '\\', seq!['/']);
    reveal_strlit("/mnt/c");
    reveal_strlit("/mnt/d");
    let w = wsl_path(path);
    assert forall|i: int| 0 <= i < w.len() implies w[i] != '\\' by {
        if p.len() >= 2 && p[0] == 'C' && p[1] == ':' {
            if i >= 6 {
                assert(w[i] == p[i - 4]);
            }
        } else if p.len() >= 2 && p[0] == 'D' && p[1] == ':' {
            if i >= 6 {
                assert(w[i] == p[i - 4]);
            }
        }
    }
}

/// `c` in lower case where it is an ASCII capital.
pub open spec fn ascii_lower(c: char) -> char {
    let u = c as u32;
    if 65 <= u <= 90 {
        ((u + 32) as u32) as char
    } else {
        c
    }
}

/// Whether `ext` names an image the watcher reads: `jpg`, `jpeg` or `png`
/// in any mix of case.
pub open spec fn image_extension(ext: Seq<char>) -> bool {
    let low = ext.map_values(|c: char| ascii_lower(c));
    low == "jpg"@ || low == "jpeg"@ || low == "png"@
}

fn lower_char(c: char) -> (r: char)
    ensures
        r == ascii_lower(c),
{
    let u = c as u32;
    if 65 <= u && u <= 90 {
        let b: u8 = (u + 32) as u8;
        proof {
            assert(b as u32 == u + 32);
        }
        b as char
    } else {
        c
    }
}

/// Whether `ext` names an image the watcher reads (see `image_extension`).
pub fn is_image_extension(ext: &str) -> (r: bool)
    ensures
        r == image_extension(ext@),
{
    let v = chars_of(ext);
    let mut low: Vec<char> = Vec::new();
    let mut i: usize = 0;
    while i < v.len()
        invariant
            i <= v@.len(),
            low@ == v@.take(i as int).map_values(|c: char| ascii_lower(c)),
        decreases v.len() - i,
    {
        low.push(lower_char(v[i]));
        i = i + 1;
        assert(low@ =~= v@.take(i as int).map_values(|c: char| ascii_lower(c)));
    }
    assert(v@.take(i as int) =~= v@);
    let jpg = chars_of("jpg");
    let jpeg = chars_of("jpeg");
    let png = chars_of("png");
    crate::text::chars_eq(&low, &jpg) || crate::text::chars_eq(&low, &jpeg) || crate::text::chars_eq(
        &low,
        &png,
    )
}

// ---------------------------------------------------------------------
// The watcher's memory
// ---------------------------------------------------------------------

/// The watcher meeting a file with extension `ext` and name `name` while
/// it knows the names `known`: whether it takes the file up (an image whose
/// name it does not know), and the names it knows afterwards (an image's
/// name is recorded; a file that is no image is not).
pub open spec fn watch_step(known: Set<Seq<char>>, ext: Seq<char>, name: Seq<char>) -> (
    bool,
    Set<Seq<char>>,
) {
    if image_extension(ext) {
        (!known.contains(name), known.insert(name))
    } else {
        (false, known)
    }
}

/// The watcher meeting the files `files` (extension, name) in turn from
/// the names `known`: for each file whether it was taken up, and the names
/// known at the end.
pub open spec fn watch_run(known: Set<Seq<char>>, files: Seq<(Seq<char>, Seq<char>)>) -> (
    Seq<bool>,
    Set<Seq<char>>,
)
    decreases files.len(),
{
    if files.len() == 0 {
        (Seq::empty(), known)
    } else {
        let (taken, k) = watch_run(known, files.drop_last());
        let (t, k2) = watch_step(k, files.last().0, files.last().1);
        (taken.push(t), k2)
    }
}

/// Watcher law: over any run of files met from the names `known` (those
/// read from the log at start), a file is taken up only when it is an
/// image whose name was not known, and no name is taken up twice.
pub proof fn lemma_watch_each_once(known: Set<Seq<char>>, files: Seq<(Seq<char>, Seq<char>)>)
    ensures
        watch_run(known, files).0.len() == files.len(),
        forall|i: int|
            0 <= i < files.len() && #[trigger] watch_run(known, files).0[i] ==> image_extension(
                files[i].0,
            ) && !known.contains(files[i].1),
        forall|i: int, j: int|
            0 <= i < j < files.len() && #[trigger] watch_run(known, files).0[i]
                && #[trigger] watch_run(known, files).0[j] ==> files[i].1 != files[j].1,
{
    lemma_watch_run(known, files);
}

proof fn lemma_watch_run(known: Set<Seq<char>>, files: Seq<(Seq<char>, Seq<char>)>)
    ensures
        watch_run(known, files).0.len() == files.len(),
        forall|x: Seq<char>| known.contains(x) ==> #[trigger] watch_run(known, files).1.contains(x),
        forall|i: int|
            0 <= i < files.len() && #[trigger] watch_run(known, files).0[i] ==> watch_run(
                known,
                files,
            ).1.contains(files[i].1),
        forall|i: int|
            0 <= i < files.len() && #[trigger] watch_run(known, files).0[i] ==> image_extension(
                files[i].0,
            ) && !known.contains(files[i].1),
        forall|i: int, j: int|
            0 <= i < j < files.len() && #[trigger] watch_run(known, files).0[i]
                && #[trigger] watch_run(known, files).0[j] ==> files[i].1 != files[j].1,
    decreases files.len(),
{
    if files.len() > 0 {
        let prev = files.drop_last();
        lemma_watch_run(known, prev);
        let (taken, k) = watch_run(known, prev);
        let n = (files.len() - 1) as int;
        let all = watch_run(known, files).0;
        assert(all == taken.push(watch_step(k, files[n].0, files[n].1).0));
        assert forall|i: int| 0 <= i < n implies all[i] == taken[i] && files[i] == prev[i] by {}
        assert forall|i: int|
            0 <= i < files.len() && #[trigger] all[i] implies watch_run(known, files).1.contains(
                files[i].1,
            ) && image_extension(files[i].0) && !known.contains(files[i].1) by {
            if i < n {
                assert(taken[i]);
                assert(k.contains(prev[i].1));
            }
        }
        assert forall|i: int, j: int|
            0 <= i < j < files.len() && #[trigger] all[i] && #[trigger] all[j] implies files[i].1
            != files[j].1 by {
            if j < n {
                assert(taken[i] && taken[j]);
                assert(prev[i].1 != prev[j].1);
            } else {
                assert(taken[i]);
                assert(k.contains(prev[i].1));
            }
        }
    }
}

/// The names a watcher counts as already read, each once: the names of
/// the files it took up, and those read back from the log.
pub struct KnownFiles {
    names: Vec<String>,
}

impl View for KnownFiles {
    type V = Set<Seq<char>>;

    closed spec fn view(&self) -> Set<Seq<char>> {
        strs(self.names@).to_set()
    }
}

impl KnownFiles {
    #[verifier::type_invariant]
    spec fn each_once(self) -> bool {
        strs(self.names@).no_duplicates()
    }

    /// No names yet.
    pub fn new() -> (r: KnownFiles)
        ensures
            r@ == Set::<Seq<char>>::empty(),
    {
        let r = KnownFiles { names: Vec::new() };
        assert(strs(r.names@).to_set() =~= Set::<Seq<char>>::empty());
        r
    }

    /// The names counted as already read from the log text `log`: the
    /// trimmed second `|` field of each line (see `known_files`), which in a
    /// line `log_line` writes is the timestamp.
    pub fn from_log(log: &str) -> (r: KnownFiles)
        ensures
            r@ == names_in(lines(log@)).to_set(),
    {
        let names = known_files(log);
        let mut r = KnownFiles::new();
        let mut i: usize = 0;
        while i < names.len()
            invariant
                i <= names@.len(),
                r@ == strs(names@).take(i as int).to_set(),
            decreases names.len() - i,
        {
            r.insert(names[i].as_str());
            proof {
                assert(strs(names@).take(i + 1) =~= strs(names@).take(i as int).push(names@[i as int]@));
                strs(names@).take(i as int).lemma_push_to_set_commute(names@[i as int]@);
            }
            i = i + 1;
        }
        assert(strs(names@).take(i as int) =~= strs(names@));
        r
    }

    /// How many names are known.
    pub fn len(&self) -> (r: usize)
        ensures
            r == self@.len(),
    {
        proof {
            use_type_invariant(self);
            strs(self.names@).unique_seq_to_set();
        }
        self.names.len()
    }

    /// Whether `name` is known.
    pub fn contains(&self, name: &str) -> (r: bool)
        ensures
            r == self@.contains(name@),
    {
        let mut i: usize = 0;
        while i < self.names.len()
            invariant
                i <= self.names@.len(),
                forall|j: int| 0 <= j < i ==> self.names@[j]@ != name@,
            decreases self.names.len() - i,
        {
            if crate::text::str_is(self.names[i].as_str(), name) {
                assert(strs(self.names@)[i as int] == name@);
                return true;
            }
            i = i + 1;
        }
        assert(!strs(self.names@).contains(name@)) by {
            if strs(self.names@).contains(name@) {
                let k = choose|k: int| 0 <= k < strs(self.names@).len() && strs(self.names@)[k] == name@;
                assert(self.names@[k]@ == name@);
            }
        }
        false
    }

    /// Records `name`; says whether it was new (`HashSet::insert`).
    pub fn insert(&mut self, name: &str) -> (r: bool)
        ensures
            r == !old(self)@.contains(name@),
            final(self)@ == old(self)@.insert(name@),
    {
        proof {
            use_type_invariant(&*self);
        }
        if self.contains(name) {
            assert(self@ =~= self@.insert(name@));
            false
        } else {
            let ghost before = strs(self.names@);
            let n = owned(name);
            proof {
                assert(!before.contains(name@));
                assert(before.push(name@).no_duplicates()) by {
                    let s2 = before.push(name@);
                    assert forall|a: int, b: int| 0 <= a < s2.len() && 0 <= b < s2.len() && a != b implies s2[a] != s2[b] by {
                        if a < before.len() && b < before.len() {
                        } else if a == before.len() {
                            assert(s2[b] == before[b]);
                        } else {
                            assert(s2[a] == before[a]);
                        }
                    }
                }
                before.lemma_push_to_set_commute(name@);
            }
            let mut names: Vec<String> = Vec::new();
            std::mem::swap(&mut names, &mut self.names);
            names.push(n);
            assert(strs(names@) =~= before.push(name@));
            self.names = names;
            true
        }
    }

    /// Takes up a file with extension `ext` and name `name` when it is an
    /// image not seen before; says whether it did (see `watch_step`).
    pub fn take_up(&mut self, ext: &str, name: &str) -> (r: bool)
        ensures
            (r, final(self)@) == watch_step(old(self)@, ext@, name@),
    {
        if !is_image_extension(ext) {
            return false;
        }
        self.insert(name)
    }
}

} // verus!
