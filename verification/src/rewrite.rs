//! The bulk-listing text rewriter.
//!
//! The external tool's bulk listing aligns its three columns (attribute
//! path, version, description) with long stretches of spaces.  The rewriter
//! replaces every run of two or more spaces with the fixed field delimiter,
//! trims trailing whitespace from each line, drops lines whose attribute
//! path — the column before the first such run — marks a private
//! sub-attribute with a `._`, and terminates every kept line with a single
//! newline.

use vstd::prelude::*;

use crate::text::push_char;

verus! {

/// The fixed field delimiter that replaces a run of two or more spaces.
pub open spec fn delim() -> Seq<char> {
    seq![' ', ' ', ' ', ' ']
}

/// The delimiter as text.
pub fn field_delimiter() -> (r: &'static str)
    ensures
        r@ == delim(),
{
    proof {
        reveal_strlit("    ");
        assert(("    ")@ =~= delim());
    }
    "    "
}

/// Whitespace trimmed from line ends: the characters with the Unicode
/// White_Space property, as `char::is_whitespace` reports it.
pub open spec fn spec_is_ws(c: char) -> bool {
    let u = c as u32;
    u == 0x20 || (0x09 <= u && u <= 0x0D) || u == 0x85 || u == 0xA0 || u == 0x1680 || (0x2000 <= u
        && u <= 0x200A) || u == 0x2028 || u == 0x2029 || u == 0x202F || u == 0x205F || u == 0x3000
}

/// Length of the leading run of spaces.
pub open spec fn run_len(l: Seq<char>) -> int
    decreases l.len(),
{
    if l.len() == 0 || l[0] != ' ' {
        0
    } else {
        1 + run_len(l.skip(1))
    }
}

pub proof fn lemma_run_len_bounds(l: Seq<char>)
    ensures
        0 <= run_len(l) <= l.len(),
        forall|k: int| 0 <= k < run_len(l) ==> l[k] == ' ',
        run_len(l) < l.len() ==> l[run_len(l)] != ' ',
    decreases l.len(),
{
    if l.len() > 0 && l[0] == ' ' {
        lemma_run_len_bounds(l.skip(1));
        assert forall|k: int| 0 <= k < run_len(l) implies l[k] == ' ' by {
            if k > 0 {
                assert(l.skip(1)[k - 1] == l[k]);
            }
        }
    }
}

/// A scan that saw `m` spaces and then a non-space (or the end) has found
/// the leading run.
proof fn lemma_run_len_scan(l: Seq<char>, m: int)
    requires
        0 <= m <= l.len(),
        forall|k: int| 0 <= k < m ==> l[k] == ' ',
        m < l.len() ==> l[m] != ' ',
    ensures
        run_len(l) == m,
    decreases m,
{
    if m > 0 {
        lemma_run_len_scan(l.skip(1), m - 1);
    }
}

/// A line with every run of two or more spaces replaced by the delimiter.
pub open spec fn spec_squash(l: Seq<char>) -> Seq<char>
    decreases l.len(),
    via spec_squash_decreases
{
    if l.len() == 0 {
        Seq::empty()
    } else if l[0] != ' ' {
        seq![l[0]] + spec_squash(l.skip(1))
    } else if run_len(l) >= 2 {
        delim() + spec_squash(l.skip(run_len(l)))
    } else {
        seq![' '] + spec_squash(l.skip(1))
    }
}

#[via_fn]
proof fn spec_squash_decreases(l: Seq<char>) {
    lemma_run_len_bounds(l);
}

/// A line with trailing whitespace removed.
pub open spec fn spec_trim_end(l: Seq<char>) -> Seq<char>
    decreases l.len(),
{
    if l.len() > 0 && spec_is_ws(l.last()) {
        spec_trim_end(l.drop_last())
    } else {
        l
    }
}

/// Where the attribute-path column ends: the position of the first run of
/// two or more spaces, or the line's length when there is none.  On an
/// already-rewritten line this is equally the position of the first field
/// delimiter.
pub open spec fn attr_col_end(l: Seq<char>) -> int
    decreases l.len(),
{
    if l.len() < 2 {
        l.len() as int
    } else if l[0] == ' ' && l[1] == ' ' {
        0
    } else {
        1 + attr_col_end(l.skip(1))
    }
}

pub proof fn lemma_attr_col_end_bounds(l: Seq<char>)
    ensures
        0 <= attr_col_end(l) <= l.len(),
        forall|k: int|
            0 <= k < attr_col_end(l) && k + 1 < l.len() ==> !(#[trigger] l[k] == ' ' && l[k + 1]
                == ' '),
        attr_col_end(l) < l.len() ==> attr_col_end(l) + 1 < l.len() && l[attr_col_end(l)] == ' '
            && l[attr_col_end(l) + 1] == ' ',
    decreases l.len(),
{
    if l.len() >= 2 && !(l[0] == ' ' && l[1] == ' ') {
        lemma_attr_col_end_bounds(l.skip(1));
        assert forall|k: int|
            0 <= k < attr_col_end(l) && k + 1 < l.len() implies !(#[trigger] l[k] == ' ' && l[k + 1]
            == ' ') by {
            if k > 0 {
                assert(l.skip(1)[k - 1] == l[k] && l.skip(1)[k] == l[k + 1]);
            }
        }
        if attr_col_end(l) < l.len() {
            assert(l.skip(1)[attr_col_end(l) - 1] == l[attr_col_end(l)]);
            assert(l.skip(1)[attr_col_end(l)] == l[attr_col_end(l) + 1]);
        }
    }
}

/// A scan that found a run of two spaces at `m`, with none before it, has
/// found the column end.
proof fn lemma_attr_col_end_found(l: Seq<char>, m: int)
    requires
        0 <= m,
        m + 1 < l.len(),
        forall|k: int| 0 <= k < m ==> !(#[trigger] l[k] == ' ' && l[k + 1] == ' '),
        l[m] == ' ' && l[m + 1] == ' ',
    ensures
        attr_col_end(l) == m,
    decreases m,
{
    if m > 0 {
        assert forall|k: int|
            0 <= k < m - 1 implies !(#[trigger] l.skip(1)[k] == ' ' && l.skip(1)[k + 1] == ' ') by {
            assert(l.skip(1)[k] == l[k + 1] && l.skip(1)[k + 1] == l[k + 2]);
        }
        assert(l.skip(1)[m - 1] == l[m] && l.skip(1)[m] == l[m + 1]);
        lemma_attr_col_end_found(l.skip(1), m - 1);
    }
}

/// A scan that found no run of two spaces puts the column end at the
/// line's end.
proof fn lemma_attr_col_end_none(l: Seq<char>)
    requires
        forall|k: int|
            0 <= k && k + 1 < l.len() ==> !(#[trigger] l[k] == ' ' && l[k + 1] == ' '),
    ensures
        attr_col_end(l) == l.len(),
    decreases l.len(),
{
    if l.len() >= 2 {
        assert forall|k: int|
            0 <= k && k + 1 < l.skip(1).len() implies !(#[trigger] l.skip(1)[k] == ' ' && l.skip(
            1,
        )[k + 1] == ' ') by {
            assert(l.skip(1)[k] == l[k + 1] && l.skip(1)[k + 1] == l[k + 2]);
        }
        lemma_attr_col_end_none(l.skip(1));
    }
}

/// The line names a private sub-attribute: its attribute-path column — the
/// text before the first run of two or more spaces — has a `.` immediately
/// followed by a `_`.  A `._` in a later column (a version string or a
/// description) does not make the line private.
pub open spec fn spec_has_private(l: Seq<char>) -> bool {
    exists|i: int| 0 <= i && i + 1 < attr_col_end(l) && #[trigger] l[i] == '.' && l[i + 1] == '_'
}

/// Position of the first newline.
pub open spec fn first_nl(s: Seq<char>) -> int
    decreases s.len(),
{
    if s.len() == 0 {
        0
    } else if s[0] == '\n' {
        0
    } else {
        1 + first_nl(s.skip(1))
    }
}

pub proof fn lemma_first_nl_scan(s: Seq<char>, m: int)
    requires
        0 <= m <= s.len(),
        forall|k: int| 0 <= k < m ==> s[k] != '\n',
        m < s.len() ==> s[m] == '\n',
    ensures
        first_nl(s) == m,
    decreases m,
{
    if m > 0 {
        lemma_first_nl_scan(s.skip(1), m - 1);
    }
}

pub proof fn lemma_first_nl_bounds(s: Seq<char>)
    ensures
        0 <= first_nl(s) <= s.len(),
        forall|k: int| 0 <= k < first_nl(s) ==> s[k] != '\n',
        s.contains('\n') ==> first_nl(s) < s.len() && s[first_nl(s)] == '\n',
    decreases s.len(),
{
    if s.len() > 0 && s[0] != '\n' {
        lemma_first_nl_bounds(s.skip(1));
        if s.contains('\n') {
            let w = choose|w: int| 0 <= w < s.len() && s[w] == '\n';
            assert(s.skip(1)[w - 1] == s[w]);
            assert(s.skip(1).contains('\n'));
        }
        assert forall|k: int| 0 <= k < first_nl(s) implies s[k] != '\n' by {
            if k > 0 {
                assert(s.skip(1)[k - 1] == s[k]);
            }
        }
        if first_nl(s) < s.len() && s.skip(1)[first_nl(s) - 1] == '\n' {
            assert(s[first_nl(s)] == '\n');
        }
    }
}

/// The lines of `s`, split at `\n`, without a trailing empty line when `s`
/// ends in a newline (the splitting `str::lines` performs, except that a
/// `\r` before the `\n` is kept and left for trimming).
pub open spec fn spec_lines(s: Seq<char>) -> Seq<Seq<char>>
    decreases s.len(),
    via spec_lines_decreases
{
    if s.len() == 0 {
        Seq::empty()
    } else if !s.contains('\n') {
        seq![s]
    } else {
        seq![s.take(first_nl(s))] + spec_lines(s.skip(first_nl(s) + 1))
    }
}

#[via_fn]
proof fn spec_lines_decreases(s: Seq<char>) {
    lemma_first_nl_bounds(s);
}

/// One kept line of output: the squashed, trimmed line.
pub open spec fn spec_rewrite_line(l: Seq<char>) -> Seq<char> {
    spec_trim_end(spec_squash(l))
}

/// The rewritten text for a sequence of lines.
pub open spec fn spec_rewrite_lines(ls: Seq<Seq<char>>) -> Seq<char>
    decreases ls.len(),
{
    if ls.len() == 0 {
        Seq::empty()
    } else {
        (if spec_has_private(ls[0]) {
            Seq::<char>::empty()
        } else {
            spec_rewrite_line(ls[0]) + seq!['\n']
        }) + spec_rewrite_lines(ls.skip(1))
    }
}

/// The whole rewritten listing.
pub open spec fn spec_rewrite_listing(s: Seq<char>) -> Seq<char> {
    spec_rewrite_lines(spec_lines(s))
}

/// Replaces every run of two or more spaces in `line`, from position `i`
/// on, with the field delimiter.
fn squash_from(s: &str, i: usize) -> (r: String)
    requires
        i <= s@.len(),
    ensures
        r@ == spec_squash(s@.skip(i as int)),
    decreases s@.len() - i,
{
    let len = s.unicode_len();
    if i == len {
        proof {
            assert(s@.skip(i as int) =~= Seq::<char>::empty());
        }
        return String::new();
    }
    let c = s.get_char(i);
    proof {
        assert(s@.skip(i as int)[0] == s@[i as int]);
    }
    if c != ' ' {
        let mut out = String::new();
        push_char(&mut out, c);
        let rest = squash_from(s, i + 1);
        out.append(rest.as_str());
        proof {
            assert(s@.skip(i as int).skip(1) =~= s@.skip(i as int + 1));
            assert(out@ =~= seq![c] + spec_squash(s@.skip(i as int).skip(1)));
        }
        out
    } else {
        let mut j = i + 1;
        while j < len && s.get_char(j) == ' '
            invariant
                i < j <= len,
                len == s@.len(),
                i < s@.len(),
                forall|k: int| i <= k < j ==> s@[k] == ' ',
            decreases len - j,
        {
            j = j + 1;
        }
        proof {
            let t = s@.skip(i as int);
            assert(forall|k: int| 0 <= k < j - i ==> t[k] == s@[#[trigger] (k + i)]);
            assert(forall|k: int| 0 <= k < j - i ==> t[k] == ' ');
            if j < len {
                assert(t[j - i] == s@[j as int]);
            }
            lemma_run_len_scan(t, j - i);
        }
        let mut out = String::new();
        if j - i >= 2 {
            out.append(field_delimiter());
        } else {
            let sp = " ";
            proof {
                reveal_strlit(" ");
                assert((" ")@ =~= seq![' ']);
            }
            out.append(sp);
        }
        let rest = squash_from(s, j);
        out.append(rest.as_str());
        proof {
            assert(s@.skip(i as int).skip(j - i) =~= s@.skip(j as int));
        }
        out
    }
}

/// Replaces every run of two or more spaces with the field delimiter.
pub fn rewrite_attr_line(line: &str) -> (r: String)
    ensures
        r@ == spec_squash(line@),
{
    let r = squash_from(line, 0);
    proof {
        assert(line@.skip(0) =~= line@);
    }
    r
}

fn is_ws(c: char) -> (r: bool)
    ensures
        r == spec_is_ws(c),
{
    let u = c as u32;
    u == 0x20 || (0x09 <= u && u <= 0x0D) || u == 0x85 || u == 0xA0 || u == 0x1680 || (0x2000 <= u
        && u <= 0x200A) || u == 0x2028 || u == 0x2029 || u == 0x202F || u == 0x205F || u == 0x3000
}

/// Removes trailing whitespace.
fn trim_end(s: &str) -> (r: String)
    ensures
        r@ == spec_trim_end(s@),
{
    let len = s.unicode_len();
    let mut k = len;
    proof {
        assert(s@.take(len as int) =~= s@);
    }
    while k > 0 && is_ws(s.get_char(k - 1))
        invariant
            0 <= k <= len,
            len == s@.len(),
            spec_trim_end(s@) == spec_trim_end(s@.take(k as int)),
        decreases k,
    {
        proof {
            let p = s@.take(k as int);
            assert(p.last() == s@[k - 1]);
            assert(p.drop_last() =~= s@.take(k - 1));
        }
        k = k - 1;
    }
    proof {
        let p = s@.take(k as int);
        if k > 0 {
            assert(p.last() == s@[k - 1]);
        }
        assert(spec_trim_end(p) == p);
    }
    let r = s.substring_char(0, k);
    proof {
        assert(s@.subrange(0, k as int) =~= s@.take(k as int));
    }
    r.to_owned()
}

/// Whether the line names a private sub-attribute.
fn has_private(line: &str) -> (r: bool)
    ensures
        r == spec_has_private(line@),
{
    let len = line.unicode_len();
    // find where the attribute-path column ends
    let mut e: usize = 0;
    let mut found = false;
    while !found && e + 1 < len
        invariant
            0 <= e <= len,
            e == 0 || e + 1 <= len,
            len == line@.len(),
            forall|k: int| 0 <= k < e ==> !(#[trigger] line@[k] == ' ' && line@[k + 1] == ' '),
            found ==> e + 1 < len && line@[e as int] == ' ' && line@[e + 1] == ' ',
        decreases len - e + (if found { 0int } else { 1int }),
    {
        if line.get_char(e) == ' ' && line.get_char(e + 1) == ' ' {
            found = true;
        } else {
            e = e + 1;
        }
    }
    let col: usize = if found {
        e
    } else {
        len
    };
    proof {
        if found {
            lemma_attr_col_end_found(line@, e as int);
        } else {
            lemma_attr_col_end_none(line@);
        }
    }
    if col < 2 {
        return false;
    }
    // scan the column for a `.` immediately followed by a `_`
    let mut i: usize = 0;
    while i + 1 < col
        invariant
            0 <= i,
            i + 1 <= col,
            col <= len,
            len == line@.len(),
            col == attr_col_end(line@),
            forall|k: int| 0 <= k && k + 1 < i + 1 ==> !(#[trigger] line@[k] == '.' && line@[k + 1]
                == '_'),
        decreases col - i,
    {
        if line.get_char(i) == '.' && line.get_char(i + 1) == '_' {
            return true;
        }
        i = i + 1;
    }
    false
}

/// Rewrites the listing from position `i` on.
fn rewrite_tail(s: &str, i: usize) -> (r: String)
    requires
        i <= s@.len(),
    ensures
        r@ == spec_rewrite_listing(s@.skip(i as int)),
    decreases s@.len() - i,
{
    let len = s.unicode_len();
    let ghost t = s@.skip(i as int);
    if i == len {
        proof {
            assert(t =~= Seq::<char>::empty());
        }
        return String::new();
    }
    // find the next newline, or the end
    let mut j = i;
    while j < len && s.get_char(j) != '\n'
        invariant
            i <= j <= len,
            len == s@.len(),
            forall|k: int| i <= k < j ==> s@[k] != '\n',
        decreases len - j,
    {
        j = j + 1;
    }
    let line = s.substring_char(i, j);
    proof {
        assert(line@ =~= t.take(j - i));
        assert(forall|k: int| 0 <= k < j - i ==> t[k] == s@[#[trigger] (k + i)]);
        if j < len {
            assert(t[j - i] == s@[j as int]);
            lemma_first_nl_scan(t, j - i);
            assert(t.contains('\n')) by {
                assert(t[j - i] == '\n');
            }
        } else {
            assert(forall|k: int| 0 <= k < t.len() ==> t[k] != '\n');
            if t.contains('\n') {
                let w = choose|w: int| 0 <= w < t.len() && t[w] == '\n';
                assert(false);
            }
            assert(t.take(j - i) =~= t);
        }
    }
    let rest: String = if j < len {
        let rr = rewrite_tail(s, j + 1);
        proof {
            assert(t.skip(j - i + 1) =~= s@.skip(j + 1));
            assert(spec_lines(t) == seq![t.take(j - i)] + spec_lines(t.skip(j - i + 1)));
            assert((seq![t.take(j - i)] + spec_lines(t.skip(j - i + 1))).skip(1) =~= spec_lines(
                t.skip(j - i + 1),
            ));
        }
        rr
    } else {
        proof {
            assert(spec_lines(t) =~= seq![line@]);
        }
        String::new()
    };
    proof {
        assert(spec_lines(t)[0] == line@);
        if j >= len {
            assert(spec_lines(t).skip(1) =~= Seq::<Seq<char>>::empty());
        }
        assert(rest@ == spec_rewrite_lines(spec_lines(t).skip(1)));
    }
    if has_private(line) {
        proof {
            assert(Seq::<char>::empty() + spec_rewrite_lines(spec_lines(t).skip(1))
                =~= spec_rewrite_lines(spec_lines(t).skip(1)));
        }
        rest
    } else {
        let mut out = trim_end(rewrite_attr_line(line).as_str());
        let nl = "\n";
        proof {
            reveal_strlit("\n");
            assert(("\n")@ =~= seq!['\n']);
        }
        out.append(nl);
        out.append(rest.as_str());
        proof {
            assert(out@ =~= (spec_rewrite_line(line@) + seq!['\n']) + spec_rewrite_lines(
                spec_lines(t).skip(1),
            ));
        }
        out
    }
}

/// Rewrites the whole bulk listing: drops lines that name a private
/// sub-attribute, replaces each run of two or more spaces with the field
/// delimiter, trims line ends, and terminates every kept line with `\n`.
pub fn rewrite_attr_lines(stdout: String) -> (r: String)
    ensures
        r@ == spec_rewrite_listing(stdout@),
{
    let r = rewrite_tail(stdout.as_str(), 0);
    proof {
        assert(stdout@.skip(0) =~= stdout@);
    }
    r
}

/// The text before the first space of a listing line: the attribute path
/// of a delimiter-separated record.
pub fn first_field(s: &str) -> (r: Option<&str>)
    ensures
        r matches Some(f) && f@ == s@.take(crate::text::first_at(s@, ' ')),
{
    let len = s.unicode_len();
    let mut p: usize = 0;
    while p < len && s.get_char(p) != ' '
        invariant
            0 <= p <= len,
            len == s@.len(),
            forall|k: int| 0 <= k < p ==> s@[k] != ' ',
        decreases len - p,
    {
        p = p + 1;
    }
    proof {
        crate::text::lemma_first_at_scan(s@, ' ', p as int);
    }
    let f = s.substring_char(0, p);
    proof {
        assert(f@ =~= s@.take(p as int));
    }
    Some(f)
}

/// The concatenation of the rewritten listings of several invocations, in
/// invocation order.
pub open spec fn spec_combined(parts: Seq<Seq<char>>) -> Seq<char>
    decreases parts.len(),
{
    if parts.len() == 0 {
        Seq::empty()
    } else {
        spec_rewrite_listing(parts[0]) + spec_combined(parts.skip(1))
    }
}

fn combine_from(parts: &Vec<String>, i: usize) -> (r: String)
    requires
        i <= parts@.len(),
    ensures
        r@ == spec_combined(parts@.skip(i as int).map_values(|s: String| s@)),
    decreases parts@.len() - i,
{
    let ghost rem = parts@.skip(i as int).map_values(|s: String| s@);
    if i == parts.len() {
        proof {
            assert(rem =~= Seq::<Seq<char>>::empty());
        }
        return String::new();
    }
    proof {
        assert(rem[0] == parts@[i as int]@);
        assert(parts@.skip(i as int + 1).map_values(|s: String| s@) =~= rem.skip(1));
    }
    let mut out = rewrite_attr_lines(parts[i].clone());
    let rest = combine_from(parts, i + 1);
    out.append(rest.as_str());
    out
}

/// Rewrites each invocation's raw bulk-listing text and concatenates the
/// results in invocation order into one cacheable blob.
pub fn combine_listings(parts: &Vec<String>) -> (r: String)
    ensures
        r@ == spec_combined(parts@.map_values(|s: String| s@)),
{
    let r = combine_from(parts, 0);
    proof {
        assert(parts@.skip(0) =~= parts@);
    }
    r
}

/// One `\r` stripped from a line end, as `str::lines` and the standard
/// line readers do for a line terminated by `\r\n`.
pub open spec fn spec_strip_cr(l: Seq<char>) -> Seq<char> {
    if l.len() > 0 && l.last() == '\r' {
        l.drop_last()
    } else {
        l
    }
}

/// Text split into lines as `str::lines` splits: at each `\n`, dropping
/// one `\r` standing before it; a final unterminated segment is kept as
/// it is.
pub open spec fn spec_desc_lines(s: Seq<char>) -> Seq<Seq<char>>
    decreases s.len(),
    via spec_desc_lines_decreases
{
    if s.len() == 0 {
        Seq::empty()
    } else if !s.contains('\n') {
        seq![s]
    } else {
        seq![spec_strip_cr(s.take(first_nl(s)))] + spec_desc_lines(s.skip(first_nl(s) + 1))
    }
}

#[via_fn]
proof fn spec_desc_lines_decreases(s: Seq<char>) {
    lemma_first_nl_bounds(s);
}

fn split_lines_from(s: &str, i: usize) -> (r: Vec<String>)
    requires
        i <= s@.len(),
    ensures
        r@.map_values(|x: String| x@) == spec_desc_lines(s@.skip(i as int)),
    decreases s@.len() - i,
{
    let len = s.unicode_len();
    let ghost t = s@.skip(i as int);
    if i == len {
        let empty: Vec<String> = Vec::new();
        proof {
            assert(t =~= Seq::<char>::empty());
            assert(empty@.map_values(|x: String| x@) =~= Seq::<Seq<char>>::empty());
        }
        return empty;
    }
    let mut j = i;
    while j < len && s.get_char(j) != '\n'
        invariant
            i <= j <= len,
            len == s@.len(),
            forall|k: int| i <= k < j ==> s@[k] != '\n',
        decreases len - j,
    {
        j = j + 1;
    }
    // a line terminated by \r\n loses the \r, as in str::lines
    let jj: usize = if j < len && j > i && s.get_char(j - 1) == '\r' {
        j - 1
    } else {
        j
    };
    let line = s.substring_char(i, jj).to_owned();
    proof {
        assert(forall|k: int| 0 <= k < t.len() ==> t[k] == s@[#[trigger] (k + i)]);
        if j < len {
            assert(t[j - i] == s@[j as int]);
            lemma_first_nl_scan(t, j - i);
            assert(t.contains('\n')) by {
                assert(t[j - i] == '\n');
            }
            if j > i {
                assert(t.take(j - i).last() == s@[j - 1]);
            }
            if jj < j {
                assert(line@ =~= t.take(j - i).drop_last());
            } else {
                assert(line@ =~= t.take(j - i));
            }
            assert(line@ == spec_strip_cr(t.take(j - i)));
        } else {
            if t.contains('\n') {
                let w = choose|w: int| 0 <= w < t.len() && t[w] == '\n';
                assert(false);
            }
            assert(line@ =~= t);
        }
    }
    if j < len {
        let mut rest = split_lines_from(s, j + 1);
        let ghost old_rest = rest@;
        rest.insert(0, line);
        proof {
            assert(t.skip(j - i + 1) =~= s@.skip(j + 1));
            assert(rest@ =~= seq![line] + old_rest);
            assert(rest@.map_values(|x: String| x@) =~= seq![line@] + old_rest.map_values(
                |x: String| x@,
            ));
        }
        rest
    } else {
        let mut one: Vec<String> = Vec::new();
        one.push(line);
        proof {
            assert(spec_desc_lines(t) =~= seq![line@]);
            assert(one@.map_values(|x: String| x@) =~= seq![line@]);
        }
        one
    }
}

/// Splits text into its lines, exactly as the standard line readers do:
/// segments end at each `\n`, a `\r` standing before the `\n` is
/// removed with it, and a text ending in a newline has no trailing empty
/// segment.
pub fn split_into_lines(s: &str) -> (r: Vec<String>)
    ensures
        r@.map_values(|x: String| x@) == spec_desc_lines(s@),
{
    let r = split_lines_from(s, 0);
    proof {
        assert(s@.skip(0) =~= s@);
    }
    r
}

// ------------------------------------------------------------------
// The rewriter's laws.
// ------------------------------------------------------------------
/// The line has no newline character.
pub open spec fn spec_no_nl(l: Seq<char>) -> bool {
    forall|j: int| 0 <= j < l.len() ==> #[trigger] l[j] != '\n'
}

/// The kept lines of a rewritten listing: lines naming a private
/// sub-attribute are dropped; every other line contributes exactly one
/// output line, its squashed and trimmed form, in input order.
pub open spec fn spec_kept_lines(ls: Seq<Seq<char>>) -> Seq<Seq<char>>
    decreases ls.len(),
{
    if ls.len() == 0 {
        Seq::empty()
    } else {
        (if spec_has_private(ls[0]) {
            Seq::<Seq<char>>::empty()
        } else {
            seq![spec_rewrite_line(ls[0])]
        }) + spec_kept_lines(ls.skip(1))
    }
}

proof fn lemma_trim_concat(u: Seq<char>, v: Seq<char>)
    ensures
        spec_trim_end(u + v) == (if spec_trim_end(v).len() > 0 {
            u + spec_trim_end(v)
        } else {
            spec_trim_end(u)
        }),
    decreases v.len(),
{
    if v.len() == 0 {
        assert(u + v =~= u);
    } else if spec_is_ws(v.last()) {
        assert((u + v).last() == v.last());
        assert((u + v).drop_last() =~= u + v.drop_last());
        lemma_trim_concat(u, v.drop_last());
    } else {
        assert((u + v).last() == v.last());
        assert((u + v).len() > 0);
    }
}

proof fn lemma_trim_prefix(x: Seq<char>)
    ensures
        spec_trim_end(x).len() <= x.len(),
        spec_trim_end(x) == x.take(spec_trim_end(x).len() as int),
    decreases x.len(),
{
    if x.len() > 0 && spec_is_ws(x.last()) {
        lemma_trim_prefix(x.drop_last());
        assert(x.drop_last().take(spec_trim_end(x).len() as int) =~= x.take(
            spec_trim_end(x).len() as int,
        ));
    } else {
        assert(x.take(x.len() as int) =~= x);
    }
}

proof fn lemma_trim_ws_only(x: Seq<char>)
    requires
        forall|k: int| 0 <= k < x.len() ==> spec_is_ws(#[trigger] x[k]),
    ensures
        spec_trim_end(x) == Seq::<char>::empty(),
    decreases x.len(),
{
    if x.len() > 0 {
        assert(spec_is_ws(x.last()));
        assert(forall|k: int| 0 <= k < x.drop_last().len() ==> #[trigger] x.drop_last()[k] == x[k]);
        lemma_trim_ws_only(x.drop_last());
    } else {
        assert(x =~= Seq::<char>::empty());
    }
}

proof fn lemma_squash_first(l: Seq<char>)
    ensures
        l.len() == 0 <==> spec_squash(l).len() == 0,
        l.len() > 0 ==> spec_squash(l)[0] == (if l[0] == ' ' {
            ' '
        } else {
            l[0]
        }),
{
    if l.len() > 0 && l[0] == ' ' && run_len(l) >= 2 {
        assert(spec_squash(l)[0] == delim()[0]);
    }
}

proof fn lemma_squash_nonspace_head(c: char, t: Seq<char>)
    requires
        c != ' ',
    ensures
        spec_squash(seq![c] + t) == seq![c] + spec_squash(t),
{
    assert((seq![c] + t)[0] == c);
    assert((seq![c] + t).skip(1) =~= t);
}

proof fn lemma_squash_space1_head(t: Seq<char>)
    requires
        t.len() == 0 || t[0] != ' ',
    ensures
        spec_squash(seq![' '] + t) == seq![' '] + spec_squash(t),
{
    let l = seq![' '] + t;
    assert(l[0] == ' ');
    assert(l.skip(1) =~= t);
    assert(run_len(l) == 1 + run_len(t));
}

proof fn lemma_squash_delim_head(t: Seq<char>)
    requires
        t.len() == 0 || t[0] != ' ',
    ensures
        spec_squash(delim() + t) == delim() + spec_squash(t),
{
    let l = delim() + t;
    assert(forall|k: int| 0 <= k < 4 ==> #[trigger] l[k] == ' ');
    if l.len() > 4 {
        assert(l[4] == t[0]);
    }
    lemma_run_len_scan(l, 4);
    assert(l.skip(4) =~= t);
}

/// Squashing a line twice is the same as squashing it once: every run in
/// a squashed line already has length one or four.
proof fn lemma_squash_idem(l: Seq<char>)
    ensures
        spec_squash(spec_squash(l)) == spec_squash(l),
    decreases l.len(),
{
    if l.len() == 0 {
    } else if l[0] != ' ' {
        let t = l.skip(1);
        lemma_squash_idem(t);
        lemma_squash_first(t);
        assert(spec_squash(l) == seq![l[0]] + spec_squash(t));
        lemma_squash_nonspace_head(l[0], spec_squash(t));
    } else {
        lemma_run_len_bounds(l);
        let r = run_len(l);
        let t = l.skip(r);
        lemma_squash_idem(t);
        lemma_squash_first(t);
        if r >= 2 {
            assert(spec_squash(l) == delim() + spec_squash(t));
            lemma_squash_delim_head(spec_squash(t));
        } else {
            assert(spec_squash(l) == seq![' '] + spec_squash(l.skip(1)));
            assert(l.skip(1) == t);
            lemma_squash_space1_head(spec_squash(t));
        }
    }
}

/// Rewriting a line that has already been rewritten changes nothing.
pub proof fn lemma_rewrite_line_idempotent(l: Seq<char>)
    ensures
        spec_rewrite_line(spec_rewrite_line(l)) == spec_rewrite_line(l),
    decreases l.len(),
{
    if l.len() == 0 {
    } else if l[0] != ' ' {
        let c = l[0];
        let t = l.skip(1);
        lemma_rewrite_line_idempotent(t);
        assert(spec_squash(l) == seq![c] + spec_squash(t));
        lemma_trim_concat(seq![c], spec_squash(t));
        let z = spec_trim_end(spec_squash(t));
        if z.len() > 0 {
            // the trimmed line is [c] + z, and z starts with a non-space
            let y = seq![c] + z;
            assert(spec_rewrite_line(l) == y);
            lemma_squash_first(t);
            lemma_trim_prefix(spec_squash(t));
            assert(z[0] == spec_squash(t)[0]);
            lemma_squash_nonspace_head(c, z);
            assert(spec_squash(y) == seq![c] + spec_squash(z));
            lemma_trim_concat(seq![c], spec_squash(z));
            // rewriting z changes nothing, by the induction hypothesis
            assert(spec_trim_end(spec_squash(z)) == z);
            assert(spec_rewrite_line(y) == seq![c] + z);
        } else {
            // everything after c trimmed away
            if spec_is_ws(c) {
                assert(seq![c].last() == c);
                assert(seq![c].drop_last() =~= Seq::<char>::empty());
                assert(spec_trim_end(seq![c]) =~= Seq::<char>::empty());
                assert(spec_rewrite_line(l) == Seq::<char>::empty());
                assert(spec_squash(Seq::<char>::empty()) == Seq::<char>::empty());
            } else {
                assert(spec_trim_end(seq![c]) == seq![c]);
                assert(spec_rewrite_line(l) == seq![c]);
                assert(seq![c].skip(1) =~= Seq::<char>::empty());
                assert(spec_squash(seq![c]) == seq![c] + spec_squash(Seq::<char>::empty()));
                assert(spec_squash(seq![c]) =~= seq![c]);
            }
        }
    } else {
        lemma_run_len_bounds(l);
        let r = run_len(l);
        let t = l.skip(r);
        lemma_rewrite_line_idempotent(t);
        let h = if r >= 2 {
            delim()
        } else {
            seq![' ']
        };
        if r < 2 {
            assert(l.skip(1) == t);
        }
        assert(spec_squash(l) == h + spec_squash(t));
        lemma_trim_concat(h, spec_squash(t));
        let z = spec_trim_end(spec_squash(t));
        if z.len() > 0 {
            let y = h + z;
            assert(spec_rewrite_line(l) == y);
            lemma_squash_first(t);
            lemma_trim_prefix(spec_squash(t));
            assert(z[0] == spec_squash(t)[0]);
            assert(z[0] != ' ');
            if r >= 2 {
                lemma_squash_delim_head(z);
            } else {
                lemma_squash_space1_head(z);
            }
            assert(spec_squash(y) == h + spec_squash(z));
            lemma_trim_concat(h, spec_squash(z));
            assert(spec_trim_end(spec_squash(z)) == z);
            assert(spec_rewrite_line(y) == h + z);
        } else {
            assert(forall|k: int| 0 <= k < h.len() ==> spec_is_ws(#[trigger] h[k]));
            lemma_trim_ws_only(h);
            assert(spec_rewrite_line(l) == Seq::<char>::empty());
            assert(spec_squash(Seq::<char>::empty()) == Seq::<char>::empty());
        }
    }
}

/// Squashing leaves the attribute-path column unchanged: the column holds
/// no run of two spaces, and the first such run becomes the first
/// delimiter.
#[verifier::rlimit(50)]
proof fn lemma_squash_col(l: Seq<char>)
    ensures
        spec_squash(l).take(attr_col_end(spec_squash(l))) == l.take(attr_col_end(l)),
    decreases l.len(),
{
    let q = spec_squash(l);
    lemma_attr_col_end_bounds(l);
    lemma_attr_col_end_bounds(q);
    if l.len() == 0 {
        assert(q.take(attr_col_end(q)) =~= l.take(attr_col_end(l)));
    } else if l[0] == ' ' && run_len(l) >= 2 {
        // the run becomes the delimiter; both columns are empty
        lemma_run_len_bounds(l);
        assert(l[1] == ' ');
        assert(attr_col_end(l) == 0);
        assert(q == delim() + spec_squash(l.skip(run_len(l))));
        assert(q[0] == ' ' && q[1] == ' ');
        assert(attr_col_end(q) == 0);
        assert(q.take(0) =~= l.take(0));
    } else {
        // the head is one character, kept as it is, and not part of a run
        let c: char = if l[0] == ' ' {
            ' '
        } else {
            l[0]
        };
        let t = l.skip(1);
        lemma_run_len_bounds(l);
        lemma_run_len_bounds(t);
        if l[0] == ' ' {
            assert(run_len(l) == 1 + run_len(t));
            assert(run_len(t) == 0);
        }
        assert(q == seq![c] + spec_squash(t));
        lemma_squash_col(t);
        lemma_attr_col_end_bounds(t);
        lemma_attr_col_end_bounds(spec_squash(t));
        if l.len() == 1 {
            assert(t =~= Seq::<char>::empty());
            assert(spec_squash(t) == Seq::<char>::empty());
            assert(q =~= seq![c]);
            assert(attr_col_end(l) == 1 && attr_col_end(q) == 1);
            assert(q.take(1) =~= l.take(1));
        } else {
            // neither line starts a run of two spaces
            lemma_squash_first(t);
            assert(t.len() > 0 && spec_squash(t).len() > 0);
            assert(l[1] == t[0]);
            assert(q[1] == spec_squash(t)[0]);
            assert(!(l[0] == ' ' && l[1] == ' ')) by {
                if l[0] == ' ' && l[1] == ' ' {
                    assert(t[0] == ' ' && run_len(t) == 0);
                    assert(false);
                }
            }
            assert(!(q[0] == ' ' && q[1] == ' '));
            assert(l.skip(1) =~= t);
            assert(attr_col_end(l) == 1 + attr_col_end(t));
            assert(q.skip(1) =~= spec_squash(t));
            assert(attr_col_end(q) == 1 + attr_col_end(spec_squash(t)));
            assert(l.take(attr_col_end(l)) =~= seq![c] + t.take(attr_col_end(t)));
            assert(q.take(attr_col_end(q)) =~= seq![c] + spec_squash(t).take(
                attr_col_end(spec_squash(t)),
            ));
        }
    }
}

/// Two lines with the same attribute-path column agree on being private.
proof fn lemma_col_private(l: Seq<char>, m: Seq<char>)
    requires
        l.take(attr_col_end(l)) == m.take(attr_col_end(m)),
    ensures
        spec_has_private(l) == spec_has_private(m),
{
    lemma_attr_col_end_bounds(l);
    lemma_attr_col_end_bounds(m);
    assert(l.take(attr_col_end(l)).len() == attr_col_end(l));
    assert(m.take(attr_col_end(m)).len() == attr_col_end(m));
    assert(attr_col_end(l) == attr_col_end(m));
    if spec_has_private(l) {
        let i = choose|i: int|
            0 <= i && i + 1 < attr_col_end(l) && #[trigger] l[i] == '.' && l[i + 1] == '_';
        assert(l.take(attr_col_end(l))[i] == l[i] && l.take(attr_col_end(l))[i + 1] == l[i + 1]);
        assert(m[i] == '.' && m[i + 1] == '_');
    }
    if spec_has_private(m) {
        let i = choose|i: int|
            0 <= i && i + 1 < attr_col_end(m) && #[trigger] m[i] == '.' && m[i + 1] == '_';
        assert(m.take(attr_col_end(m))[i] == m[i] && m.take(attr_col_end(m))[i + 1] == m[i + 1]);
        assert(l[i] == '.' && l[i + 1] == '_');
    }
}

/// A private prefix of a line marks the whole line private: truncation can
/// only shorten what stands before the first run of two spaces.
proof fn lemma_prefix_private(x: Seq<char>, k: int)
    requires
        0 <= k <= x.len(),
        spec_has_private(x.take(k)),
    ensures
        spec_has_private(x),
{
    lemma_attr_col_end_bounds(x);
    let y = x.take(k);
    lemma_attr_col_end_bounds(y);
    let i = choose|i: int|
        0 <= i && i + 1 < attr_col_end(y) && #[trigger] y[i] == '.' && y[i + 1] == '_';
    assert(x[i] == '.' && x[i + 1] == '_');
    if k >= attr_col_end(x) + 2 {
        // the run that ends the column survives the truncation, so the
        // truncated column is no longer than the original one
        assert(attr_col_end(x) < x.len());
        assert(y[attr_col_end(x)] == ' ' && y[attr_col_end(x) + 1] == ' ');
        if attr_col_end(y) > attr_col_end(x) {
            assert(false);
        }
        assert(i + 1 < attr_col_end(x));
    } else {
        // the truncated text ends within the column
        assert(i + 1 < attr_col_end(y) <= y.len());
        assert(y.len() == k);
        assert(i + 1 <= attr_col_end(x));
        if i + 1 == attr_col_end(x) {
            assert(attr_col_end(x) < x.len());
            assert(x[attr_col_end(x)] == ' ');
            assert(false);
        }
    }
}

/// Squashing neither makes a line private nor stops it being private.
proof fn lemma_squash_private(l: Seq<char>)
    ensures
        spec_has_private(spec_squash(l)) == spec_has_private(l),
{
    lemma_squash_col(l);
    lemma_col_private(spec_squash(l), l);
}

proof fn lemma_squash_no_nl(l: Seq<char>)
    requires
        spec_no_nl(l),
    ensures
        spec_no_nl(spec_squash(l)),
    decreases l.len(),
{
    if l.len() == 0 {
    } else {
        let first_space = l[0] == ' ';
        lemma_run_len_bounds(l);
        let n: int = if first_space {
            run_len(l)
        } else {
            1
        };
        let h: Seq<char> = if !first_space {
            seq![l[0]]
        } else if run_len(l) >= 2 {
            delim()
        } else {
            seq![' ']
        };
        let t = l.skip(n);
        assert(spec_no_nl(t)) by {
            assert(forall|j: int| 0 <= j < t.len() ==> t[j] == l[#[trigger] (j + n)]);
        }
        lemma_squash_no_nl(t);
        assert(spec_squash(l) == h + spec_squash(t));
        assert forall|j: int| 0 <= j < spec_squash(l).len() implies spec_squash(l)[j] != '\n' by {
            if j < h.len() {
                assert(spec_squash(l)[j] == h[j]);
            } else {
                assert(spec_squash(l)[j] == spec_squash(t)[j - h.len()]);
            }
        }
    }
}

proof fn lemma_trim_no_nl(x: Seq<char>)
    requires
        spec_no_nl(x),
    ensures
        spec_no_nl(spec_trim_end(x)),
{
    lemma_trim_prefix(x);
    assert forall|j: int| 0 <= j < spec_trim_end(x).len() implies spec_trim_end(x)[j] != '\n' by {
        assert(spec_trim_end(x)[j] == x[j]);
    }
}

proof fn lemma_lines_no_nl(s: Seq<char>)
    ensures
        forall|k: int| 0 <= k < spec_lines(s).len() ==> spec_no_nl(#[trigger] spec_lines(s)[k]),
    decreases s.len(),
{
    if s.len() == 0 {
    } else if !s.contains('\n') {
        assert forall|k: int|
            0 <= k < spec_lines(s).len() implies spec_no_nl(#[trigger] spec_lines(s)[k]) by {
            assert(spec_lines(s)[k] == s);
            assert forall|j: int| 0 <= j < s.len() implies s[j] != '\n' by {
                if s[j] == '\n' {
                    assert(s.contains('\n'));
                }
            }
        }
    } else {
        lemma_first_nl_bounds(s);
        let p = first_nl(s);
        lemma_lines_no_nl(s.skip(p + 1));
        assert forall|k: int|
            0 <= k < spec_lines(s).len() implies spec_no_nl(#[trigger] spec_lines(s)[k]) by {
            if k == 0 {
                assert(spec_lines(s)[0] == s.take(p));
                assert forall|j: int| 0 <= j < p implies s.take(p)[j] != '\n' by {
                    assert(s.take(p)[j] == s[j]);
                }
            } else {
                assert(spec_lines(s)[k] == spec_lines(s.skip(p + 1))[k - 1]);
            }
        }
    }
}

/// Prepending one newline-free line and its terminator to a text prepends
/// exactly one line to its line splitting.
proof fn lemma_lines_prepend(l: Seq<char>, t: Seq<char>)
    requires
        spec_no_nl(l),
    ensures
        spec_lines(l + seq!['\n'] + t) == seq![l] + spec_lines(t),
{
    let x = l + seq!['\n'] + t;
    assert(x[l.len() as int] == '\n');
    assert(x.contains('\n'));
    assert(forall|k: int| 0 <= k < l.len() ==> #[trigger] x[k] == l[k]);
    lemma_first_nl_scan(x, l.len() as int);
    assert(x.take(l.len() as int) =~= l);
    assert(x.skip(l.len() as int + 1) =~= t);
}

/// The lines of a rewritten listing are exactly the kept lines of the
/// input: every line with a `._` is dropped, every other input line
/// yields exactly one output line, in input order.
proof fn lemma_lines_of_rewrite(ls: Seq<Seq<char>>)
    requires
        forall|k: int| 0 <= k < ls.len() ==> spec_no_nl(#[trigger] ls[k]),
    ensures
        spec_lines(spec_rewrite_lines(ls)) == spec_kept_lines(ls),
    decreases ls.len(),
{
    if ls.len() == 0 {
    } else {
        assert(forall|k: int|
            0 <= k < ls.skip(1).len() ==> spec_no_nl(#[trigger] ls.skip(1)[k]));
        lemma_lines_of_rewrite(ls.skip(1));
        if spec_has_private(ls[0]) {
            assert(spec_rewrite_lines(ls) =~= spec_rewrite_lines(ls.skip(1)));
            assert(spec_kept_lines(ls) =~= spec_kept_lines(ls.skip(1)));
        } else {
            let m = spec_rewrite_line(ls[0]);
            lemma_squash_no_nl(ls[0]);
            lemma_trim_no_nl(spec_squash(ls[0]));
            assert(spec_rewrite_lines(ls) =~= m + seq!['\n'] + spec_rewrite_lines(ls.skip(1)));
            lemma_lines_prepend(m, spec_rewrite_lines(ls.skip(1)));
            assert(spec_kept_lines(ls) =~= seq![m] + spec_kept_lines(ls.skip(1)));
        }
    }
}

/// Rewriting the kept lines of a listing gives the same text as rewriting
/// the original lines.
proof fn lemma_rewrite_of_kept(ls: Seq<Seq<char>>)
    ensures
        spec_rewrite_lines(spec_kept_lines(ls)) == spec_rewrite_lines(ls),
    decreases ls.len(),
{
    if ls.len() == 0 {
    } else {
        lemma_rewrite_of_kept(ls.skip(1));
        if spec_has_private(ls[0]) {
            assert(spec_kept_lines(ls) =~= spec_kept_lines(ls.skip(1)));
            assert(spec_rewrite_lines(ls) =~= spec_rewrite_lines(ls.skip(1)));
        } else {
            let m = spec_rewrite_line(ls[0]);
            assert(!spec_has_private(m)) by {
                if spec_has_private(m) {
                    lemma_trim_prefix(spec_squash(ls[0]));
                    lemma_prefix_private(spec_squash(ls[0]), m.len() as int);
                    lemma_squash_private(ls[0]);
                }
            }
            lemma_rewrite_line_idempotent(ls[0]);
            let ks = spec_kept_lines(ls);
            assert(ks == seq![m] + spec_kept_lines(ls.skip(1)));
            assert(ks.len() > 0 && ks[0] == m);
            assert(ks.skip(1) =~= spec_kept_lines(ls.skip(1)));
            assert(spec_rewrite_lines(ks) == (spec_rewrite_line(m) + seq!['\n'])
                + spec_rewrite_lines(ks.skip(1)));
            assert(spec_rewrite_lines(ls) == (m + seq!['\n']) + spec_rewrite_lines(ls.skip(1)));
        }
    }
}

/// The rewriter's line mapping: the lines of the rewritten listing are
/// exactly the input lines without the private ones, each squashed and
/// trimmed, in input order.
pub proof fn lemma_rewrite_line_mapping(s: Seq<char>)
    ensures
        spec_lines(spec_rewrite_listing(s)) == spec_kept_lines(spec_lines(s)),
{
    lemma_lines_no_nl(s);
    lemma_lines_of_rewrite(spec_lines(s));
}

/// Rewriting an already-rewritten bulk listing produces the same output:
/// no double-delimiting of already-delimited fields, and no further
/// filtering of already-filtered lines.
pub proof fn lemma_rewrite_idempotent(s: Seq<char>)
    ensures
        spec_rewrite_listing(spec_rewrite_listing(s)) == spec_rewrite_listing(s),
{
    lemma_rewrite_line_mapping(s);
    lemma_rewrite_of_kept(spec_lines(s));
}

} // verus!
