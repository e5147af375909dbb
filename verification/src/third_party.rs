//! Disabling third-party APT repositories: which files are third-party,
//! commenting out one-line entries, and turning deb822 stanzas off with
//! `Enabled: no`, together with the action records that are kept of it.
use vstd::prelude::*;
use crate::text::{
    chars_of, contains, decimal, decimal_string, ends_with_newline, eq_ignore_ascii_case,
    find_char, first_index, is_ws, join, join_strings, lemma_first_index_is, lemma_join_last,
    lemma_join_push, lemma_lines_of_joined, lemma_lines_shape, line_ranges, lines, no_cr_end,
    opt_view, range_eq, range_eq_ignore_ascii_case, range_starts_with, skip_ws, slice_of,
    split_once, starts_with, string_of, trim, trim_end, trim_range, trim_start, strip_cr,
    lines_read_back, lemma_trim_cr, lemma_strip_cr_push, lemma_first_index_bounds,
};
use crate::sources::rebuild_text;

verus! {

/// Prefix put before a one-line entry that this tool disabled.
pub open spec fn disabled_list_prefix() -> Seq<char> {
    "# debian-upgrade-disabled "@
}

/// Comment put before an `Enabled: no` that this tool set.
pub open spec fn disabled_sources_marker() -> Seq<char> {
    "# debian-upgrade-disabled-enabled"@
}

// ---------------------------------------------------------------------------
// Which files are third-party sources
// ---------------------------------------------------------------------------

pub open spec fn ends_with(s: Seq<char>, p: Seq<char>) -> bool {
    p.len() <= s.len() && s.skip(s.len() - p.len()) == p
}

/// A `.list` file, a `.lsit` file (the common misspelling, read as a
/// `.list`), or a `.sources` file (an extension after a name that does not
/// start with its dot), other than the official `debian.sources`.
pub open spec fn is_candidate(name: Seq<char>) -> bool {
    &&& name != "debian.sources"@
    &&& ((name.len() > ".list"@.len() && ends_with(name, ".list"@)) || (name.len()
        > ".lsit"@.len() && ends_with(name, ".lsit"@)) || (name.len() > ".sources"@.len()
        && ends_with(name, ".sources"@)))
}

/// A `.list` or `.sources` file (an extension after a name that does not
/// start with its dot) other than `debian.sources`: the sources the
/// assistant offers to bring back after the upgrade.
pub open spec fn is_offered_source(name: Seq<char>) -> bool {
    &&& name != "debian.sources"@
    &&& ((name.len() > ".list"@.len() && ends_with(name, ".list"@)) || (name.len()
        > ".sources"@.len() && ends_with(name, ".sources"@)))
}

/// The file is in deb822 format (extension `sources`).
pub open spec fn is_deb822_name(name: Seq<char>) -> bool {
    name.len() > ".sources"@.len() && ends_with(name, ".sources"@)
}

fn text_ends_with(cs: &Vec<char>, p: &Vec<char>) -> (r: bool)
    ensures
        r == (cs@.len() > p@.len() && ends_with(cs@, p@)),
{
    if cs.len() <= p.len() {
        return false;
    }
    let r = range_eq(cs, cs.len() - p.len(), cs.len(), p);
    proof {
        assert(cs@.skip(cs.len() - p.len()) =~= cs@.subrange(cs.len() - p.len(), cs.len() as int));
    }
    r
}

/// Whether a file of `/etc/apt/sources.list.d` named `name` is a third-party source.
pub fn third_party_candidate(name: &str) -> (r: bool)
    ensures
        r == is_candidate(name@),
{
    let cs = chars_of(name);
    let official = chars_of("debian.sources");
    if range_eq(&cs, 0, cs.len(), &official) {
        proof {
            assert(cs@.subrange(0, cs.len() as int) =~= cs@);
        }
        return false;
    }
    proof {
        assert(cs@.subrange(0, cs.len() as int) =~= cs@);
    }
    text_ends_with(&cs, &chars_of(".list")) || text_ends_with(&cs, &chars_of(".lsit"))
        || text_ends_with(&cs, &chars_of(".sources"))
}

/// Whether the assistant offers the file named `name` for reactivation.
pub fn offered_source(name: &str) -> (r: bool)
    ensures
        r == is_offered_source(name@),
{
    let cs = chars_of(name);
    let official = chars_of("debian.sources");
    proof {
        assert(cs@.subrange(0, cs.len() as int) =~= cs@);
    }
    if range_eq(&cs, 0, cs.len(), &official) {
        return false;
    }
    text_ends_with(&cs, &chars_of(".list")) || text_ends_with(&cs, &chars_of(".sources"))
}

/// Whether the file named `name` is in deb822 format.
pub fn is_deb822_file(name: &str) -> (r: bool)
    ensures
        r == is_deb822_name(name@),
{
    text_ends_with(&chars_of(name), &chars_of(".sources"))
}

// ---------------------------------------------------------------------------
// One-line style files (.list)
// ---------------------------------------------------------------------------

/// An active or commented-out one-line entry: `deb`/`deb-src` alone or
/// followed by a space.
pub open spec fn is_deb_entry(t: Seq<char>) -> bool {
    ||| starts_with(t, "deb "@)
    ||| t == "deb"@
    ||| starts_with(t, "deb-src "@)
    ||| t == "deb-src"@
}

/// A line of a `.list` file once processed: the new line, whether it was
/// disabled, and whether it was an entry disabled before.
pub open spec fn list_disable_line(line: Seq<char>) -> (Seq<char>, bool, bool) {
    let t = trim_start(line);
    if t.len() > 0 && t[0] == '#' {
        (line, false, is_deb_entry(trim_start(t.drop_first())))
    } else if is_deb_entry(t) {
        (disabled_list_prefix() + line, true, false)
    } else {
        (line, false, false)
    }
}

/// Record of a disabled one-line entry.
pub open spec fn list_action(path: Seq<char>, line: Seq<char>) -> Seq<char> {
    "list-comment|"@ + path + "|"@ + trim(line)
}

/// New lines, entries disabled, entries already disabled, and the records.
pub open spec fn list_disable_lines(ls: Seq<Seq<char>>, path: Seq<char>) -> (Seq<Seq<char>>, nat, nat, Seq<Seq<char>>)
    decreases ls.len(),
{
    if ls.len() == 0 {
        (seq![], 0, 0, seq![])
    } else {
        let prev = list_disable_lines(ls.drop_last(), path);
        let l = list_disable_line(ls.last());
        (
            prev.0.push(l.0),
            prev.1 + if l.1 {
                1nat
            } else {
                0nat
            },
            prev.2 + if l.2 {
                1nat
            } else {
                0nat
            },
            if l.1 {
                prev.3.push(list_action(path, ls.last()))
            } else {
                prev.3
            },
        )
    }
}

/// The result of disabling the entries of a file.
pub struct DisableOutcome {
    /// The file's new text.
    pub content: String,
    /// Entries disabled now.
    pub changed: usize,
    /// Entries found disabled already.
    pub already_disabled: usize,
    /// Records of what was disabled.
    pub actions: Vec<String>,
}

pub open spec fn list_disable_spec(content: Seq<char>, path: Seq<char>) -> (Seq<char>, nat, nat, Seq<Seq<char>>) {
    let r = list_disable_lines(lines(content), path);
    (rebuild_text(content, r.0), r.1, r.2, r.3)
}

fn is_deb_entry_range(cs: &Vec<char>, a: usize, b: usize, lits: &DebLiterals) -> (r: bool)
    requires
        a <= b <= cs.len(),
        lits.wf(),
    ensures
        r == is_deb_entry(cs@.subrange(a as int, b as int)),
{
    range_starts_with(cs, a, b, &lits.deb_sp) || range_eq(cs, a, b, &lits.deb) || range_starts_with(
        cs,
        a,
        b,
        &lits.deb_src_sp,
    ) || range_eq(cs, a, b, &lits.deb_src)
}

struct DebLiterals {
    deb: Vec<char>,
    deb_sp: Vec<char>,
    deb_src: Vec<char>,
    deb_src_sp: Vec<char>,
}

impl DebLiterals {
    spec fn wf(&self) -> bool {
        &&& self.deb@ == "deb"@
        &&& self.deb_sp@ == "deb "@
        &&& self.deb_src@ == "deb-src"@
        &&& self.deb_src_sp@ == "deb-src "@
    }

    fn new() -> (r: DebLiterals)
        ensures
            r.wf(),
    {
        DebLiterals {
            deb: chars_of("deb"),
            deb_sp: chars_of("deb "),
            deb_src: chars_of("deb-src"),
            deb_src_sp: chars_of("deb-src "),
        }
    }
}

/// Comments out every active `deb`/`deb-src` line of a `.list` file at `path`.
pub fn disable_list_repo_lines(content: &str, path: &str) -> (r: DisableOutcome)
    ensures
        (r.content@, r.changed as nat, r.already_disabled as nat, r.actions.deep_view())
            == list_disable_spec(content@, path@),
{
    let cs = chars_of(content);
    let ranges = line_ranges(&cs);
    let ghost ls = lines(cs@);
    let lits = DebLiterals::new();
    let mut out = String::new();
    let mut changed: usize = 0;
    let mut already: usize = 0;
    let mut actions: Vec<String> = Vec::new();
    let mut k: usize = 0;
    while k < ranges.len()
        invariant
            cs@ == content@,
            ls == lines(cs@),
            ranges.len() == ls.len(),
            lits.wf(),
            forall|t: int|
                0 <= t < ranges.len() ==> (#[trigger] ranges@[t]).0 <= ranges@[t].1 <= cs.len()
                    && cs@.subrange(ranges@[t].0 as int, ranges@[t].1 as int) == ls[t],
            0 <= k <= ranges.len(),
            out@ == join(list_disable_lines(ls.take(k as int), path@).0, "\n"@),
            changed as nat == list_disable_lines(ls.take(k as int), path@).1,
            already as nat == list_disable_lines(ls.take(k as int), path@).2,
            actions.deep_view() == list_disable_lines(ls.take(k as int), path@).3,
            changed <= k,
            already <= k,
        decreases ranges.len() - k,
    {
        let (a, b) = ranges[k];
        let ghost line = ls[k as int];
        proof {
            assert(ls.take(k + 1).drop_last() =~= ls.take(k as int));
            assert(ls.take(k + 1).last() == line);
        }
        let ts = skip_ws(&cs, a, b);
        let mut new_line: String;
        if ts < b && cs[ts] == '#' {
            let inner = skip_ws(&cs, ts + 1, b);
            proof {
                let t = trim_start(line);
                assert(t[0] == cs@[ts as int]);
                assert(t.drop_first() =~= cs@.subrange(ts + 1, b as int));
            }
            if is_deb_entry_range(&cs, inner, b, &lits) {
                already = already + 1;
            }
            new_line = string_of(slice_of(content, a, b));
        } else if is_deb_entry_range(&cs, ts, b, &lits) {
            proof {
                if ts < b {
                    assert(trim_start(line)[0] == cs@[ts as int]);
                }
            }
            new_line = string_of("# debian-upgrade-disabled ");
            new_line.append(slice_of(content, a, b));
            let (x, y) = trim_range(&cs, a, b);
            let mut act = string_of("list-comment|");
            act.append(path);
            act.append("|");
            act.append(slice_of(content, x, y));
            proof {
                let old_actions = actions.deep_view();
                assert(actions.deep_view().push(act@) =~= old_actions.push(act@));
            }
            actions.push(act);
            changed = changed + 1;
        } else {
            proof {
                if ts < b {
                    assert(trim_start(line)[0] == cs@[ts as int]);
                }
            }
            new_line = string_of(slice_of(content, a, b));
        }
        proof {
            let prev = list_disable_lines(ls.take(k as int), path@).0;
            lemma_join_push(prev, "\n"@, new_line@);
        }
        if k > 0 {
            out.append("\n");
        }
        out.append(new_line.as_str());
        k = k + 1;
    }
    proof {
        assert(ls.take(ranges.len() as int) =~= ls);
    }
    if cs.len() > 0 && cs[cs.len() - 1] == '\n' {
        out.append("\n");
    }
    DisableOutcome { content: out, changed, already_disabled: already, actions }
}

// ---------------------------------------------------------------------------
// deb822 files (.sources)
// ---------------------------------------------------------------------------

/// A line with nothing but whitespace; stanzas are separated by such lines.
pub open spec fn is_blank(l: Seq<char>) -> bool {
    trim(l).len() == 0
}

/// Number of non-blank lines from `i` on: the length of the stanza at `i`.
pub open spec fn stanza_len(ls: Seq<Seq<char>>, i: int) -> nat
    decreases ls.len() - i,
{
    if 0 <= i < ls.len() && !is_blank(ls[i]) {
        1 + stanza_len(ls, i + 1)
    } else {
        0
    }
}

/// The value of the line if it is an `Enabled` field (key compared without
/// case, comment lines skipped).
pub open spec fn enabled_value(l: Seq<char>) -> Option<Seq<char>> {
    let t = trim_start(l);
    if t.len() > 0 && t[0] == '#' {
        None
    } else {
        match split_once(t, ':') {
            Some(p) => if eq_ignore_ascii_case(trim(p.0), "Enabled"@) {
                Some(p.1)
            } else {
                None
            },
            None => None,
        }
    }
}

/// Index of the first `Enabled` field of a stanza, or its length.
pub open spec fn first_enabled(st: Seq<Seq<char>>) -> nat
    decreases st.len(),
{
    if st.len() == 0 {
        0
    } else if enabled_value(st[0]) is Some {
        0
    } else {
        1 + first_enabled(st.drop_first())
    }
}

/// Record of a stanza turned off, `out_start` being its first line in the new file.
pub open spec fn sources_action(kind: Seq<char>, path: Seq<char>, out_start: nat) -> Seq<char> {
    kind + path + "|stanza-start="@ + decimal(out_start)
}

/// A stanza once turned off: its new lines, whether it changed, whether it
/// was off already, and the record kept of it.  An `Enabled` field that is
/// not `no` is replaced by `Enabled: no`, with the marker comment put
/// before it unless it is there already; a stanza without the field gets
/// the marker comment and `Enabled: no` appended.
pub open spec fn stanza_disable(st: Seq<Seq<char>>, out_start: nat, path: Seq<char>) -> (Seq<Seq<char>>, bool, bool, Option<Seq<char>>) {
    let j = first_enabled(st) as int;
    if 0 <= j < st.len() {
        let v = enabled_value(st[j]);
        if v is Some && eq_ignore_ascii_case(trim(v->0), "no"@) {
            (st, false, true, None)
        } else {
            let new_lines = if j == 0 || trim(st[j - 1]) != disabled_sources_marker() {
                st.take(j) + seq![disabled_sources_marker(), "Enabled: no"@] + st.skip(j + 1)
            } else {
                st.update(j, "Enabled: no"@)
            };
            (new_lines, true, false, Some(sources_action("sources-enabled-no|"@, path, out_start)))
        }
    } else {
        (
            st + seq![disabled_sources_marker(), "Enabled: no"@],
            true,
            false,
            Some(sources_action("sources-enabled-added|"@, path, out_start)),
        )
    }
}

pub proof fn lemma_stanza_len(ls: Seq<Seq<char>>, i: int)
    ensures
        i + stanza_len(ls, i) <= if i < ls.len() { ls.len() as int } else { i },
        0 <= i < ls.len() && !is_blank(ls[i]) ==> stanza_len(ls, i) >= 1,
        forall|t: int| i <= t < i + stanza_len(ls, i) ==> !is_blank(#[trigger] ls[t]),
        0 <= i + stanza_len(ls, i) < ls.len() ==> is_blank(ls[i + stanza_len(ls, i)]),
    decreases ls.len() - i,
{
    if 0 <= i < ls.len() && !is_blank(ls[i]) {
        lemma_stanza_len(ls, i + 1);
    }
}

/// Lines of the new file, stanzas changed, stanzas off already, and records,
/// processing the lines from `i` on after the results `acc` of those before.
pub open spec fn sources_disable_from(ls: Seq<Seq<char>>, i: int, path: Seq<char>, acc: (Seq<Seq<char>>, nat, nat, Seq<Seq<char>>)) -> (Seq<Seq<char>>, nat, nat, Seq<Seq<char>>)
    decreases ls.len() - i,
{
    if i < 0 || i >= ls.len() {
        acc
    } else if is_blank(ls[i]) {
        sources_disable_from(ls, i + 1, path, (acc.0.push(ls[i]), acc.1, acc.2, acc.3))
    } else {
        let n = stanza_len(ls, i);
        proof {
            lemma_stanza_len(ls, i);
        }
        let r = stanza_disable(ls.subrange(i, i + n), acc.0.len(), path);
        sources_disable_from(
            ls,
            i + n,
            path,
            (
                acc.0 + r.0,
                acc.1 + if r.1 {
                    1nat
                } else {
                    0nat
                },
                acc.2 + if r.2 {
                    1nat
                } else {
                    0nat
                },
                match r.3 {
                    Some(a) => acc.3.push(a),
                    None => acc.3,
                },
            ),
        )
    }
}

pub open spec fn sources_disable_spec(content: Seq<char>, path: Seq<char>) -> (Seq<char>, nat, nat, Seq<Seq<char>>) {
    let r = sources_disable_from(lines(content), 0, path, (seq![], 0, 0, seq![]));
    (rebuild_text(content, r.0), r.1, r.2, r.3)
}

/// Value range of the `Enabled` field on `cs[a..b]`, if it is one.
fn enabled_value_range(cs: &Vec<char>, a: usize, b: usize, p_enabled: &Vec<char>) -> (r: Option<(usize, usize)>)
    requires
        a <= b <= cs.len(),
        p_enabled@ == "Enabled"@,
    ensures
        match r {
            None => enabled_value(cs@.subrange(a as int, b as int)) is None,
            Some((x, y)) => a <= x <= y <= b && enabled_value(cs@.subrange(a as int, b as int))
                == Some(cs@.subrange(x as int, y as int)),
        },
{
    let ghost line = cs@.subrange(a as int, b as int);
    let ts = skip_ws(cs, a, b);
    proof {
        if ts < b {
            assert(trim_start(line)[0] == cs@[ts as int]);
        }
    }
    if ts < b && cs[ts] == '#' {
        return None;
    }
    let h = find_char(cs, ts, b, ':');
    if h == b {
        return None;
    }
    let (k1, k2) = trim_range(cs, ts, h);
    proof {
        let t = cs@.subrange(ts as int, b as int);
        assert(t.take(h - ts) =~= cs@.subrange(ts as int, h as int));
        assert(t.skip(h - ts + 1) =~= cs@.subrange(h + 1, b as int));
    }
    if range_eq_ignore_ascii_case(cs, k1, k2, p_enabled) {
        Some((h + 1, b))
    } else {
        None
    }
}

/// Whether the line `cs[a..b]` is blank.
fn blank_range(cs: &Vec<char>, a: usize, b: usize) -> (r: bool)
    requires
        a <= b <= cs.len(),
    ensures
        r == is_blank(cs@.subrange(a as int, b as int)),
{
    let (x, y) = trim_range(cs, a, b);
    x == y
}

proof fn lemma_first_enabled_step(st: Seq<Seq<char>>, j: int)
    requires
        0 <= j < st.len(),
        forall|t: int| 0 <= t < j ==> enabled_value(#[trigger] st[t]) is None,
    ensures
        enabled_value(st[j]) is Some ==> first_enabled(st) == j,
        first_enabled(st) >= j,
    decreases j,
{
    if j > 0 {
        assert(enabled_value(st[0]) is None);
        assert(first_enabled(st) == 1 + first_enabled(st.drop_first()));
        assert forall|t: int| 0 <= t < j - 1 implies enabled_value(#[trigger] st.drop_first()[t]) is None by {
            assert(st.drop_first()[t] == st[t + 1]);
        }
        lemma_first_enabled_step(st.drop_first(), j - 1);
        assert(st.drop_first()[j - 1] == st[j]);
    }
}

proof fn lemma_first_enabled_none(st: Seq<Seq<char>>)
    requires
        forall|t: int| 0 <= t < st.len() ==> enabled_value(#[trigger] st[t]) is None,
    ensures
        first_enabled(st) == st.len(),
    decreases st.len(),
{
    if st.len() > 0 {
        assert forall|t: int| 0 <= t < st.len() - 1 implies enabled_value(#[trigger] st.drop_first()[t]) is None by {
            assert(st.drop_first()[t] == st[t + 1]);
        }
        lemma_first_enabled_none(st.drop_first());
        assert(enabled_value(st[0]) is None);
    }
}

/// A stanza result: new lines, changed, off already, record.
pub struct StanzaOutcome {
    pub lines: Vec<String>,
    pub changed: bool,
    pub already_disabled: bool,
    pub action: Option<String>,
}

/// Turns off the stanza made of the lines `i..e` of `src`.
fn disable_stanza(
    src: &str,
    cs: &Vec<char>,
    ranges: &Vec<(usize, usize)>,
    i: usize,
    e: usize,
    out_start: usize,
    path: &str,
    ls: Ghost<Seq<Seq<char>>>,
    p_enabled: &Vec<char>,
    p_no: &Vec<char>,
    p_marker: &Vec<char>,
) -> (r: StanzaOutcome)
    requires
        cs@ == src@,
        p_enabled@ == "Enabled"@,
        p_no@ == "no"@,
        p_marker@ == disabled_sources_marker(),
        ranges.len() == ls@.len(),
        forall|t: int|
            0 <= t < ranges.len() ==> (#[trigger] ranges@[t]).0 <= ranges@[t].1 <= cs.len()
                && cs@.subrange(ranges@[t].0 as int, ranges@[t].1 as int) == ls@[t],
        i < e <= ranges.len(),
    ensures
        (r.lines.deep_view(), r.changed, r.already_disabled, opt_view(r.action)) == stanza_disable(
            ls@.subrange(i as int, e as int),
            out_start as nat,
            path@,
        ),
        r.lines.len() >= 1,
{
    let ghost st = ls@.subrange(i as int, e as int);
    let mut j: usize = i;
    let mut found: Option<(usize, usize)> = None;
    while j < e && found.is_none()
        invariant
            cs@ == src@,
            p_enabled@ == "Enabled"@,
            ranges.len() == ls@.len(),
            forall|t: int|
                0 <= t < ranges.len() ==> (#[trigger] ranges@[t]).0 <= ranges@[t].1 <= cs.len()
                    && cs@.subrange(ranges@[t].0 as int, ranges@[t].1 as int) == ls@[t],
            i <= j <= e <= ranges.len(),
            st == ls@.subrange(i as int, e as int),
            found is None ==> forall|t: int| 0 <= t < j - i ==> enabled_value(#[trigger] st[t]) is None,
            found is Some ==> j > i && forall|t: int| 0 <= t < j - 1 - i ==> enabled_value(#[trigger] st[t]) is None,
            match found {
                None => true,
                Some((x, y)) => x <= y <= cs.len() && enabled_value(st[j - 1 - i]) == Some(
                    cs@.subrange(x as int, y as int),
                ),
            },
        decreases e - j,
    {
        let (a, b) = ranges[j];
        proof {
            assert(st[j - i] == ls@[j as int]);
        }
        found = enabled_value_range(cs, a, b, p_enabled);
        j = j + 1;
    }
    let mut lines: Vec<String> = Vec::new();
    let mut t: usize = i;
    while t < e
        invariant
            cs@ == src@,
            ranges.len() == ls@.len(),
            forall|u: int|
                0 <= u < ranges.len() ==> (#[trigger] ranges@[u]).0 <= ranges@[u].1 <= cs.len()
                    && cs@.subrange(ranges@[u].0 as int, ranges@[u].1 as int) == ls@[u],
            i <= t <= e <= ranges.len(),
            st == ls@.subrange(i as int, e as int),
            lines.deep_view() == st.take(t - i),
        decreases e - t,
    {
        let (a, b) = ranges[t];
        proof {
            assert(st.take(t + 1 - i) =~= st.take(t - i).push(ls@[t as int]));
        }
        lines.push(string_of(slice_of(src, a, b)));
        t = t + 1;
    }
    proof {
        assert(st.take(e - i) =~= st);
    }
    match found {
        None => {
            proof {
                lemma_first_enabled_none(st);
            }
            lines.push(string_of("# debian-upgrade-disabled-enabled"));
            lines.push(string_of("Enabled: no"));
            let mut act = string_of("sources-enabled-added|");
            act.append(path);
            act.append("|stanza-start=");
            act.append(decimal_string(out_start as u64).as_str());
            proof {
                assert(lines.deep_view() =~= st + seq![disabled_sources_marker(), "Enabled: no"@]);
            }
            StanzaOutcome { lines, changed: true, already_disabled: false, action: Some(act) }
        },
        Some((x, y)) => {
            let jj: usize = j - 1 - i;
            proof {
                lemma_first_enabled_step(st, jj as int);
            }
            let (v1, v2) = trim_range(cs, x, y);
            if range_eq_ignore_ascii_case(cs, v1, v2, p_no) {
                return StanzaOutcome { lines, changed: false, already_disabled: true, action: None };
            }
            let insert = if jj == 0 {
                true
            } else {
                let (pa, pb) = ranges[j - 2];
                let (q1, q2) = trim_range(cs, pa, pb);
                proof {
                    assert(st[jj - 1] == ls@[j - 2]);
                }
                !range_eq(cs, q1, q2, p_marker)
            };
            let ghost old_lines = lines.deep_view();
            if insert {
                lines.set(jj, string_of("Enabled: no"));
                lines.insert(jj, string_of("# debian-upgrade-disabled-enabled"));
                proof {
                    assert(lines.deep_view() =~= old_lines.take(jj as int) + seq![
                        disabled_sources_marker(),
                        "Enabled: no"@,
                    ] + old_lines.skip(jj + 1));
                }
            } else {
                lines.set(jj, string_of("Enabled: no"));
                proof {
                    assert(lines.deep_view() =~= old_lines.update(jj as int, "Enabled: no"@));
                }
            }
            let mut act = string_of("sources-enabled-no|");
            act.append(path);
            act.append("|stanza-start=");
            act.append(decimal_string(out_start as u64).as_str());
            StanzaOutcome { lines, changed: true, already_disabled: false, action: Some(act) }
        },
    }
}

/// Sets `Enabled: no` on every stanza of a deb822 file at `path`.
pub fn disable_sources_entries(content: &str, path: &str) -> (r: DisableOutcome)
    ensures
        (r.content@, r.changed as nat, r.already_disabled as nat, r.actions.deep_view())
            == sources_disable_spec(content@, path@),
{
    let cs = chars_of(content);
    let ranges = line_ranges(&cs);
    let ghost ls = lines(cs@);
    let p_enabled = chars_of("Enabled");
    let p_no = chars_of("no");
    let p_marker = chars_of("# debian-upgrade-disabled-enabled");
    let mut out: Vec<String> = Vec::new();
    let mut changed: usize = 0;
    let mut already: usize = 0;
    let mut actions: Vec<String> = Vec::new();
    let mut i: usize = 0;
    proof {
        assert(out.deep_view() =~= Seq::<Seq<char>>::empty());
        assert(actions.deep_view() =~= Seq::<Seq<char>>::empty());
    }
    while i < ranges.len()
        invariant
            cs@ == content@,
            ls == lines(cs@),
            ranges.len() == ls.len(),
            p_enabled@ == "Enabled"@,
            p_no@ == "no"@,
            p_marker@ == disabled_sources_marker(),
            forall|t: int|
                0 <= t < ranges.len() ==> (#[trigger] ranges@[t]).0 <= ranges@[t].1 <= cs.len()
                    && cs@.subrange(ranges@[t].0 as int, ranges@[t].1 as int) == ls[t],
            0 <= i <= ranges.len(),
            sources_disable_from(ls, i as int, path@, (out.deep_view(), changed as nat, already as nat, actions.deep_view()))
                == sources_disable_from(ls, 0, path@, (seq![], 0, 0, seq![])),
            changed + already <= out.len(),
        decreases ranges.len() - i,
    {
        let (a, b) = ranges[i];
        let ghost acc = (out.deep_view(), changed as nat, already as nat, actions.deep_view());
        if blank_range(&cs, a, b) {
            let ghost old_out = out.deep_view();
            let line = string_of(slice_of(content, a, b));
            out.push(line);
            proof {
                assert(out.deep_view() =~= old_out.push(ls[i as int]));
                assert(sources_disable_from(ls, i as int, path@, acc) == sources_disable_from(
                    ls,
                    i + 1,
                    path@,
                    (acc.0.push(ls[i as int]), acc.1, acc.2, acc.3),
                ));
            }
            i = i + 1;
        } else {
            let mut e: usize = i + 1;
            while e < ranges.len() && !blank_range(&cs, ranges[e].0, ranges[e].1)
                invariant
                    ranges.len() == ls.len(),
                    forall|t: int|
                        0 <= t < ranges.len() ==> (#[trigger] ranges@[t]).0 <= ranges@[t].1 <= cs.len()
                            && cs@.subrange(ranges@[t].0 as int, ranges@[t].1 as int) == ls[t],
                    i < e <= ranges.len(),
                    stanza_len(ls, i as int) == (e - i) + stanza_len(ls, e as int),
                decreases ranges.len() - e,
            {
                e = e + 1;
            }
            proof {
                assert(!is_blank(ls[i as int]));
                if e < ranges.len() {
                    assert(is_blank(ls[e as int]));
                }
                assert(stanza_len(ls, e as int) == 0);
            }
            let res = disable_stanza(
                content,
                &cs,
                &ranges,
                i,
                e,
                out.len(),
                path,
                Ghost(ls),
                &p_enabled,
                &p_no,
                &p_marker,
            );
            let ghost old_out = out.deep_view();
            let ghost old_actions = actions.deep_view();
            let mut k: usize = 0;
            while k < res.lines.len()
                invariant
                    0 <= k <= res.lines.len(),
                    out.deep_view() == old_out + res.lines.deep_view().take(k as int),
                    out.len() >= old_out.len(),
                decreases res.lines.len() - k,
            {
                proof {
                    assert(res.lines.deep_view().take(k + 1) =~= res.lines.deep_view().take(
                        k as int,
                    ).push(res.lines.deep_view()[k as int]));
                }
                let ghost before = out.deep_view();
                out.push(res.lines[k].clone());
                proof {
                    assert(out.deep_view() =~= before.push(res.lines.deep_view()[k as int]));
                }
                k = k + 1;
            }
            proof {
                assert(res.lines.deep_view().take(res.lines.len() as int) =~= res.lines.deep_view());
            }
            if res.changed {
                changed = changed + 1;
            }
            if res.already_disabled {
                already = already + 1;
            }
            let ghost r_spec = stanza_disable(ls.subrange(i as int, e as int), acc.0.len(), path@);
            match res.action {
                Some(act) => {
                    actions.push(act);
                    proof {
                        assert(actions.deep_view() =~= old_actions.push(r_spec.3->0));
                    }
                },
                None => {},
            }
            proof {
                lemma_stanza_len(ls, i as int);
                assert(stanza_len(ls, i as int) == e - i);
                assert(sources_disable_from(ls, i as int, path@, acc) == sources_disable_from(
                    ls,
                    e as int,
                    path@,
                    (
                        acc.0 + r_spec.0,
                        acc.1 + if r_spec.1 {
                            1nat
                        } else {
                            0nat
                        },
                        acc.2 + if r_spec.2 {
                            1nat
                        } else {
                            0nat
                        },
                        match r_spec.3 {
                            Some(a) => acc.3.push(a),
                            None => acc.3,
                        },
                    ),
                ));
            }
            i = e;
        }
    }
    let joined = join_strings(&out, "\n");
    let mut text = joined;
    if cs.len() > 0 && cs[cs.len() - 1] == '\n' {
        text.append("\n");
    }
    DisableOutcome { content: text, changed, already_disabled: already, actions }
}


// ---------------------------------------------------------------------------
// Laws
// ---------------------------------------------------------------------------

/// Disabling a `.list` file keeps every line, in place: a line is either
/// left as it is or commented out behind the marker prefix.
pub proof fn law_list_lines_are_kept(ls: Seq<Seq<char>>, path: Seq<char>)
    ensures
        list_disable_lines(ls, path).0.len() == ls.len(),
        forall|i: int|
            0 <= i < ls.len() ==> (#[trigger] list_disable_lines(ls, path).0[i] == ls[i]
                || list_disable_lines(ls, path).0[i] == disabled_list_prefix() + ls[i]),
    decreases ls.len(),
{
    if ls.len() > 0 {
        law_list_lines_are_kept(ls.drop_last(), path);
        let prev = list_disable_lines(ls.drop_last(), path);
        assert forall|i: int| 0 <= i < ls.len() implies (#[trigger] list_disable_lines(
            ls,
            path,
        ).0[i] == ls[i] || list_disable_lines(ls, path).0[i] == disabled_list_prefix() + ls[i]) by {
            if i < ls.len() - 1 {
                assert(list_disable_lines(ls, path).0[i] == prev.0[i]);
                assert(ls.drop_last()[i] == ls[i]);
            }
        }
    }
}

/// Every `.list` entry disabled leaves exactly one record.
pub proof fn law_list_one_record_per_entry(ls: Seq<Seq<char>>, path: Seq<char>)
    ensures
        list_disable_lines(ls, path).3.len() == list_disable_lines(ls, path).1,
    decreases ls.len(),
{
    if ls.len() > 0 {
        law_list_one_record_per_entry(ls.drop_last(), path);
    }
}

proof fn lemma_sources_records(ls: Seq<Seq<char>>, i: int, path: Seq<char>, acc: (Seq<Seq<char>>, nat, nat, Seq<Seq<char>>))
    requires
        acc.3.len() == acc.1,
    ensures
        sources_disable_from(ls, i, path, acc).3.len() == sources_disable_from(ls, i, path, acc).1,
    decreases ls.len() - i,
{
    if 0 <= i < ls.len() {
        if is_blank(ls[i]) {
            lemma_sources_records(ls, i + 1, path, (acc.0.push(ls[i]), acc.1, acc.2, acc.3));
        } else {
            let n = stanza_len(ls, i);
            lemma_stanza_len(ls, i);
            let r = stanza_disable(ls.subrange(i, i + n), acc.0.len(), path);
            lemma_sources_records(
                ls,
                i + n,
                path,
                (
                    acc.0 + r.0,
                    acc.1 + if r.1 {
                        1nat
                    } else {
                        0nat
                    },
                    acc.2 + if r.2 {
                        1nat
                    } else {
                        0nat
                    },
                    match r.3 {
                        Some(a) => acc.3.push(a),
                        None => acc.3,
                    },
                ),
            );
        }
    }
}

/// Every stanza of a `.sources` file turned off leaves exactly one record.
pub proof fn law_sources_one_record_per_stanza(content: Seq<char>, path: Seq<char>)
    ensures
        sources_disable_spec(content, path).3.len() == sources_disable_spec(content, path).1,
{
    lemma_sources_records(lines(content), 0, path, (seq![], 0, 0, seq![]));
}


proof fn lemma_list_line_settled(l: Seq<char>)
    ensures
        list_disable_line(list_disable_line(l).0).0 == list_disable_line(l).0,
        !list_disable_line(list_disable_line(l).0).1,
        list_disable_line(list_disable_line(l).0).2 == list_disable_line(l).2,
{
    reveal_strlit("# debian-upgrade-disabled ");
    reveal_strlit("deb ");
    reveal_strlit("deb-src ");
    reveal_strlit("deb");
    reveal_strlit("deb-src");
    let t = trim_start(l);
    if !(t.len() > 0 && t[0] == '#') && is_deb_entry(t) {
        let o = disabled_list_prefix() + l;
        assert(o[0] == '#');
        assert(trim_start(o) == o);
        let d = o.drop_first();
        assert(d[0] == ' ');
        assert(trim_start(d) == trim_start(d.drop_first()));
        let e = d.drop_first();
        assert(e[0] == 'd' && e[1] == 'e' && e[2] == 'b' && e[3] == 'i');
        assert(trim_start(e) == e);
        assert(e.take(4) != "deb "@) by {
            assert(e.take(4)[3] == 'i');
        }
        assert(e.take(8) != "deb-src "@) by {
            assert(e.take(8)[3] == 'i');
        }
        assert(e != "deb"@) by {
            assert(e.len() > 3);
        }
        assert(e != "deb-src"@) by {
            assert(e[3] != "deb-src"@[3]);
        }
    }
}

proof fn lemma_list_second_pass(ls: Seq<Seq<char>>, path: Seq<char>)
    ensures
        list_disable_lines(list_disable_lines(ls, path).0, path).0 == list_disable_lines(ls, path).0,
        list_disable_lines(list_disable_lines(ls, path).0, path).1 == 0,
        list_disable_lines(list_disable_lines(ls, path).0, path).2 == list_disable_lines(ls, path).2,
        list_disable_lines(list_disable_lines(ls, path).0, path).3.len() == 0,
    decreases ls.len(),
{
    if ls.len() > 0 {
        lemma_list_second_pass(ls.drop_last(), path);
        lemma_list_line_settled(ls.last());
        let out = list_disable_lines(ls, path).0;
        assert(out.drop_last() =~= list_disable_lines(ls.drop_last(), path).0);
        assert(out.last() == list_disable_line(ls.last()).0);
    }
}

/// Disabling the entries of a `.list` file a second time disables nothing
/// more, finds the same entries disabled already, records nothing, and
/// leaves the file as the first time wrote it (unless the file has two
/// carriage returns before a line feed, which line splitting folds).
pub proof fn law_list_disable_is_idempotent(content: Seq<char>, path: Seq<char>)
    requires
        !contains(content, "\r\r\n"@),
    ensures
        list_disable_spec(list_disable_spec(content, path).0, path).0 == list_disable_spec(
            content,
            path,
        ).0,
        list_disable_spec(list_disable_spec(content, path).0, path).1 == 0,
        list_disable_spec(list_disable_spec(content, path).0, path).2 == list_disable_spec(
            content,
            path,
        ).2,
        list_disable_spec(list_disable_spec(content, path).0, path).3.len() == 0,
{
    reveal_strlit("# debian-upgrade-disabled ");
    let ls = lines(content);
    let out = list_disable_lines(ls, path).0;
    let nl = ends_with_newline(content);
    lemma_lines_shape(content);
    law_list_lines_are_kept(ls, path);
    assert forall|i: int| 0 <= i < out.len() implies !(#[trigger] out[i]).contains('\n') by {
        if out[i] != ls[i] {
            assert(out[i] == disabled_list_prefix() + ls[i]);
            if out[i].contains('\n') {
                let j = choose|j: int| 0 <= j < out[i].len() && out[i][j] == '\n';
                if j >= disabled_list_prefix().len() {
                    assert(ls[i][j - disabled_list_prefix().len()] == '\n');
                    assert(ls[i].contains('\n'));
                }
                assert(false);
            }
        }
    }
    assert forall|i: int| 0 <= i < out.len() && (i < out.len() - 1 || nl) implies no_cr_end(
        #[trigger] out[i],
    ) by {
        assert(no_cr_end(ls[i]));
        if out[i] != ls[i] {
            assert(out[i] == disabled_list_prefix() + ls[i]);
            if ls[i].len() > 0 {
                assert(out[i].last() == ls[i].last());
            } else {
                assert(out[i].last() == ' ');
            }
        }
    }
    if !nl && out.len() > 0 {
        assert(out.last() == out[out.len() - 1]);
        assert(ls.last() == ls[ls.len() - 1]);
    }
    lemma_lines_of_joined(out, nl);
    let text1 = rebuild_text(content, out);
    assert(lines(text1) == out);
    lemma_list_second_pass(ls, path);
    if !nl && out.len() > 0 {
        lemma_join_last(out, "\n"@);
        assert(text1 =~= crate::text::join(out, "\n"@));
        assert(text1.last() != '\n');
    }
    if !nl && out.len() == 0 {
        assert(text1 =~= Seq::<char>::empty());
    }
    if nl {
        reveal_strlit("\n");
        assert(text1.last() == '\n');
    }
    assert(ends_with_newline(text1) == nl);
}


proof fn lemma_enabled_no_line()
    ensures
        enabled_value("Enabled: no"@) == Some(" no"@),
        eq_ignore_ascii_case(trim(" no"@), "no"@),
        !is_blank("Enabled: no"@),
        !"Enabled: no"@.contains('\n'),
        no_cr_end("Enabled: no"@),
{
    reveal_strlit("Enabled: no");
    reveal_strlit("Enabled");
    reveal_strlit(" no");
    reveal_strlit("no");
    let l = "Enabled: no"@;
    assert(trim_start(l) == l);
    assert forall|i: int| 0 <= i < 7 implies l[i] != ':' by {}
    lemma_first_index_is(l, ':', 7);
    assert(l.take(7) =~= "Enabled"@);
    assert(l.skip(8) =~= " no"@);
    assert(trim_start("Enabled"@) == "Enabled"@);
    assert(trim_end("Enabled"@) == "Enabled"@);
    assert(trim_start(" no"@) == trim_start(" no"@.drop_first()));
    assert(" no"@.drop_first() =~= "no"@);
    assert(trim_start("no"@) == "no"@);
    assert(trim_end("no"@) == "no"@);
    assert(trim_end(l) == l);
    if l.contains('\n') {
        let j = choose|j: int| 0 <= j < l.len() && l[j] == '\n';
        assert(false);
    }
}

proof fn lemma_marker_line()
    ensures
        enabled_value(disabled_sources_marker()) is None,
        !is_blank(disabled_sources_marker()),
        !disabled_sources_marker().contains('\n'),
        no_cr_end(disabled_sources_marker()),
{
    reveal_strlit("# debian-upgrade-disabled-enabled");
    let m = disabled_sources_marker();
    assert(trim_start(m) == m);
    assert(trim_end(m) == m);
    if m.contains('\n') {
        let j = choose|j: int| 0 <= j < m.len() && m[j] == '\n';
        assert(false);
    }
}

proof fn lemma_first_enabled_bounds(st: Seq<Seq<char>>)
    ensures
        first_enabled(st) <= st.len(),
        forall|i: int| 0 <= i < first_enabled(st) ==> enabled_value(#[trigger] st[i]) is None,
        first_enabled(st) < st.len() ==> enabled_value(st[first_enabled(st) as int]) is Some,
    decreases st.len(),
{
    if st.len() > 0 && enabled_value(st[0]) is None {
        lemma_first_enabled_bounds(st.drop_first());
        assert forall|i: int| 0 <= i < first_enabled(st) implies enabled_value(#[trigger] st[i]) is None by {
            if i > 0 {
                assert(st[i] == st.drop_first()[i - 1]);
            }
        }
    }
}

proof fn lemma_first_enabled_is(st: Seq<Seq<char>>, k: int)
    requires
        0 <= k <= st.len(),
        forall|i: int| 0 <= i < k ==> enabled_value(#[trigger] st[i]) is None,
        k < st.len() ==> enabled_value(st[k]) is Some,
    ensures
        first_enabled(st) == k,
    decreases st.len(),
{
    if st.len() > 0 && enabled_value(st[0]) is None {
        assert forall|i: int| 0 <= i < k - 1 implies enabled_value(#[trigger] st.drop_first()[i]) is None by {
            assert(st.drop_first()[i] == st[i + 1]);
        }
        lemma_first_enabled_is(st.drop_first(), k - 1);
    }
}

/// A line that a file can hold between two line feeds as they are written back.
pub open spec fn plain_line(l: Seq<char>) -> bool {
    !l.contains('\n') && no_cr_end(l)
}

proof fn lemma_stanza_settled(st: Seq<Seq<char>>, start: nat, start2: nat, path: Seq<char>)
    requires
        st.len() > 0,
        forall|i: int| 0 <= i < st.len() ==> !is_blank(#[trigger] st[i]),
    ensures
        ({
            let r = stanza_disable(st, start, path);
            &&& stanza_disable(r.0, start2, path) == (r.0, false, true, None::<Seq<char>>)
            &&& r.0.len() > 0
            &&& forall|i: int| 0 <= i < r.0.len() ==> !is_blank(#[trigger] r.0[i])
            &&& (forall|i: int| 0 <= i < st.len() ==> plain_line(#[trigger] st[i])) ==> forall|i: int|
                0 <= i < r.0.len() ==> plain_line(#[trigger] r.0[i])
        }),
{
    lemma_enabled_no_line();
    lemma_marker_line();
    lemma_first_enabled_bounds(st);
    let j = first_enabled(st) as int;
    let r = stanza_disable(st, start, path);
    let no = "Enabled: no"@;
    if 0 <= j < st.len() {
        let v = enabled_value(st[j]);
        if v is Some && eq_ignore_ascii_case(trim(v->0), "no"@) {
            lemma_first_enabled_is(r.0, j);
        } else {
            if j == 0 || trim(st[j - 1]) != disabled_sources_marker() {
                let m = disabled_sources_marker();
                let nl = st.take(j) + seq![m, no] + st.skip(j + 1);
                assert(r.0 == nl);
                assert forall|i: int| 0 <= i < j + 1 implies enabled_value(#[trigger] nl[i]) is None by {
                    if i < j {
                        assert(nl[i] == st[i]);
                    } else {
                        assert(nl[i] == m);
                    }
                }
                assert(nl[j + 1] == no);
                lemma_first_enabled_is(nl, j + 1);
                assert forall|i: int| 0 <= i < nl.len() implies !is_blank(#[trigger] nl[i]) by {
                    if i < j {
                        assert(nl[i] == st[i]);
                    } else if i > j + 1 {
                        assert(nl[i] == st[i - 1]);
                    }
                }
                if forall|i: int| 0 <= i < st.len() ==> plain_line(#[trigger] st[i]) {
                    assert forall|i: int| 0 <= i < nl.len() implies plain_line(#[trigger] nl[i]) by {
                        if i < j {
                            assert(nl[i] == st[i]);
                        } else if i > j + 1 {
                            assert(nl[i] == st[i - 1]);
                        }
                    }
                }
            } else {
                let nl = st.update(j, no);
                assert(r.0 == nl);
                assert forall|i: int| 0 <= i < j implies enabled_value(#[trigger] nl[i]) is None by {
                    assert(nl[i] == st[i]);
                }
                lemma_first_enabled_is(nl, j);
            }
        }
    } else {
        let nl = st + seq![disabled_sources_marker(), no];
        assert(r.0 == nl);
        assert forall|i: int| 0 <= i < st.len() + 1 implies enabled_value(#[trigger] nl[i]) is None by {
            if i < st.len() {
                assert(nl[i] == st[i]);
            }
        }
        assert(nl[st.len() as int + 1] == no);
        lemma_first_enabled_is(nl, st.len() as int + 1);
        assert forall|i: int| 0 <= i < nl.len() implies !is_blank(#[trigger] nl[i]) by {
            if i < st.len() {
                assert(nl[i] == st[i]);
            }
        }
        if forall|i: int| 0 <= i < st.len() ==> plain_line(#[trigger] st[i]) {
            assert forall|i: int| 0 <= i < nl.len() implies plain_line(#[trigger] nl[i]) by {
                if i < st.len() {
                    assert(nl[i] == st[i]);
                }
            }
        }
    }
}


proof fn lemma_stanza_len_is(ls: Seq<Seq<char>>, p: int, m: int)
    requires
        0 <= p,
        0 <= m,
        p + m <= ls.len(),
        forall|t: int| p <= t < p + m ==> !is_blank(#[trigger] ls[t]),
        p + m == ls.len() || is_blank(ls[p + m]),
    ensures
        stanza_len(ls, p) == m,
    decreases m,
{
    if m > 0 {
        lemma_stanza_len_is(ls, p + 1, m - 1);
    }
}

proof fn lemma_sources_prefix(
    ls: Seq<Seq<char>>,
    i: int,
    path: Seq<char>,
    acc: (Seq<Seq<char>>, nat, nat, Seq<Seq<char>>),
)
    ensures
        sources_disable_from(ls, i, path, acc).0.len() >= acc.0.len(),
        sources_disable_from(ls, i, path, acc).0.take(acc.0.len() as int) == acc.0,
    decreases ls.len() - i,
{
    if 0 <= i < ls.len() {
        if is_blank(ls[i]) {
            let acc2 = (acc.0.push(ls[i]), acc.1, acc.2, acc.3);
            lemma_sources_prefix(ls, i + 1, path, acc2);
            let r = sources_disable_from(ls, i, path, acc);
            assert(r.0.take(acc.0.len() as int) =~= r.0.take(acc2.0.len() as int).take(
                acc.0.len() as int,
            ));
            assert(acc2.0.take(acc.0.len() as int) =~= acc.0);
        } else {
            let n = stanza_len(ls, i);
            lemma_stanza_len(ls, i);
            let st = stanza_disable(ls.subrange(i, i + n), acc.0.len(), path);
            let acc2 = (
                acc.0 + st.0,
                acc.1 + if st.1 {
                    1nat
                } else {
                    0nat
                },
                acc.2 + if st.2 {
                    1nat
                } else {
                    0nat
                },
                match st.3 {
                    Some(a) => acc.3.push(a),
                    None => acc.3,
                },
            );
            lemma_sources_prefix(ls, i + n, path, acc2);
            let r = sources_disable_from(ls, i, path, acc);
            assert(r.0.take(acc.0.len() as int) =~= r.0.take(acc2.0.len() as int).take(
                acc.0.len() as int,
            ));
            assert(acc2.0.take(acc.0.len() as int) =~= acc.0);
        }
    }
}

/// Going over the text that a pass over `ls` writes, from where the
/// segment at `i` was written, finds every stanza off already: it writes
/// the same lines and turns nothing off.
proof fn lemma_sources_second_pass(
    ls: Seq<Seq<char>>,
    i: int,
    path: Seq<char>,
    acc: (Seq<Seq<char>>, nat, nat, Seq<Seq<char>>),
    c2: nat,
    a2: nat,
    x2: Seq<Seq<char>>,
)
    requires
        0 <= i,
    ensures
        ({
            let out = sources_disable_from(ls, i, path, acc).0;
            let second = sources_disable_from(out, acc.0.len() as int, path, (acc.0, c2, a2, x2));
            &&& second.0 == out
            &&& second.1 == c2
            &&& second.3 == x2
            &&& second.2 + acc.1 + acc.2 == a2 + sources_disable_from(ls, i, path, acc).1
                + sources_disable_from(ls, i, path, acc).2
        }),
    decreases ls.len() - i,
{
    let out = sources_disable_from(ls, i, path, acc).0;
    let p = acc.0.len() as int;
    lemma_sources_prefix(ls, i, path, acc);
    if i >= ls.len() {
        assert(out == acc.0);
    } else if is_blank(ls[i]) {
        let acc2 = (acc.0.push(ls[i]), acc.1, acc.2, acc.3);
        lemma_sources_prefix(ls, i + 1, path, acc2);
        lemma_sources_second_pass(ls, i + 1, path, acc2, c2, a2, x2);
        assert(out.take(p + 1)[p] == ls[i]);
        assert(out[p] == ls[i]);
        assert(acc.0.push(out[p]) == acc2.0);
    } else {
        let n = stanza_len(ls, i);
        lemma_stanza_len(ls, i);
        let st = ls.subrange(i, i + n);
        assert forall|t: int| 0 <= t < st.len() implies !is_blank(#[trigger] st[t]) by {
            assert(st[t] == ls[i + t]);
        }
        let r = stanza_disable(st, acc.0.len(), path);
        lemma_stanza_settled(st, acc.0.len(), acc.0.len(), path);
        let acc2 = (
            acc.0 + r.0,
            acc.1 + if r.1 {
                1nat
            } else {
                0nat
            },
            acc.2 + if r.2 {
                1nat
            } else {
                0nat
            },
            match r.3 {
                Some(a) => acc.3.push(a),
                None => acc.3,
            },
        );
        assert(out == sources_disable_from(ls, i + n, path, acc2).0);
        lemma_sources_prefix(ls, i + n, path, acc2);
        let m = r.0.len() as int;
        assert forall|t: int| p <= t < p + m implies !is_blank(#[trigger] out[t]) by {
            assert(out[t] == out.take(p + m)[t]);
            assert(out.take(p + m)[t] == acc2.0[t]);
            assert(acc2.0[t] == r.0[t - p]);
        }
        if i + n < ls.len() {
            assert(is_blank(ls[i + n]));
            let acc3 = (acc2.0.push(ls[i + n]), acc2.1, acc2.2, acc2.3);
            lemma_sources_prefix(ls, i + n + 1, path, acc3);
            assert(out == sources_disable_from(ls, i + n + 1, path, acc3).0);
            assert(out.take(p + m + 1)[p + m] == ls[i + n]);
            assert(out[p + m] == ls[i + n]);
        } else {
            assert(out == acc2.0);
        }
        lemma_stanza_len_is(out, p, m);
        assert(out.subrange(p, p + m) =~= r.0) by {
            assert forall|t: int| 0 <= t < m implies out.subrange(p, p + m)[t] == r.0[t] by {
                assert(out[p + t] == out.take(p + m)[p + t]);
                assert(out.take(p + m)[p + t] == acc2.0[p + t]);
            }
        }
        lemma_stanza_settled(st, acc.0.len(), acc.0.len(), path);
        assert(stanza_disable(out.subrange(p, p + m), p as nat, path) == (r.0, false, true, None::<Seq<char>>)) by {
            lemma_stanza_settled(st, acc.0.len(), p as nat, path);
        }
        assert(r.1 != r.2);
        lemma_sources_second_pass(ls, i + n, path, acc2, c2, a2 + 1, x2);
    }
}

/// A pass over lines writes at least one, and when the last line it reads
/// is not empty, the last line it writes is not empty either.
proof fn lemma_sources_last_line(
    ls: Seq<Seq<char>>,
    i: int,
    path: Seq<char>,
    acc: (Seq<Seq<char>>, nat, nat, Seq<Seq<char>>),
)
    requires
        0 <= i < ls.len(),
    ensures
        sources_disable_from(ls, i, path, acc).0.len() > 0,
        ls.last().len() > 0 ==> sources_disable_from(ls, i, path, acc).0.last().len() > 0,
    decreases ls.len() - i,
{
    if is_blank(ls[i]) {
        let acc2 = (acc.0.push(ls[i]), acc.1, acc.2, acc.3);
        if i + 1 < ls.len() {
            lemma_sources_last_line(ls, i + 1, path, acc2);
        } else {
            assert(sources_disable_from(ls, i + 1, path, acc2) == acc2);
        }
    } else {
        let n = stanza_len(ls, i);
        lemma_stanza_len(ls, i);
        let st = ls.subrange(i, i + n);
        assert forall|t: int| 0 <= t < st.len() implies !is_blank(#[trigger] st[t]) by {
            assert(st[t] == ls[i + t]);
        }
        let r = stanza_disable(st, acc.0.len(), path);
        lemma_stanza_settled(st, acc.0.len(), acc.0.len(), path);
        let acc2 = (
            acc.0 + r.0,
            acc.1 + if r.1 {
                1nat
            } else {
                0nat
            },
            acc.2 + if r.2 {
                1nat
            } else {
                0nat
            },
            match r.3 {
                Some(a) => acc.3.push(a),
                None => acc.3,
            },
        );
        assert(sources_disable_from(ls, i, path, acc) == sources_disable_from(ls, i + n, path, acc2));
        if i + n < ls.len() {
            lemma_sources_last_line(ls, i + n, path, acc2);
        } else {
            assert(sources_disable_from(ls, i + n, path, acc2) == acc2);
            assert(acc2.0.last() == r.0[r.0.len() - 1]);
            assert(!is_blank(r.0[r.0.len() - 1]));
            if acc2.0.last().len() == 0 {
                let l = acc2.0.last();
                assert(trim_start(l) == l);
                assert(trim_end(l) == l);
            }
        }
    }
}


proof fn lemma_sources_plain_lines(
    ls: Seq<Seq<char>>,
    i: int,
    path: Seq<char>,
    acc: (Seq<Seq<char>>, nat, nat, Seq<Seq<char>>),
)
    requires
        0 <= i,
        forall|k: int| 0 <= k < ls.len() ==> plain_line(#[trigger] ls[k]),
        forall|k: int| 0 <= k < acc.0.len() ==> plain_line(#[trigger] acc.0[k]),
    ensures
        forall|k: int|
            0 <= k < sources_disable_from(ls, i, path, acc).0.len() ==> plain_line(
                #[trigger] sources_disable_from(ls, i, path, acc).0[k],
            ),
    decreases ls.len() - i,
{
    if i < ls.len() {
        if is_blank(ls[i]) {
            let acc2 = (acc.0.push(ls[i]), acc.1, acc.2, acc.3);
            assert forall|k: int| 0 <= k < acc2.0.len() implies plain_line(#[trigger] acc2.0[k]) by {
                if k < acc.0.len() {
                    assert(acc2.0[k] == acc.0[k]);
                }
            }
            lemma_sources_plain_lines(ls, i + 1, path, acc2);
            assert(sources_disable_from(ls, i, path, acc) == sources_disable_from(ls, i + 1, path, acc2));
        } else {
            let n = stanza_len(ls, i);
            lemma_stanza_len(ls, i);
            let st = ls.subrange(i, i + n);
            assert forall|t: int| 0 <= t < st.len() implies !is_blank(#[trigger] st[t]) && plain_line(
                st[t],
            ) by {
                assert(st[t] == ls[i + t]);
            }
            let r = stanza_disable(st, acc.0.len(), path);
            lemma_stanza_settled(st, acc.0.len(), acc.0.len(), path);
            let acc2 = (
                acc.0 + r.0,
                acc.1 + if r.1 {
                    1nat
                } else {
                    0nat
                },
                acc.2 + if r.2 {
                    1nat
                } else {
                    0nat
                },
                match r.3 {
                    Some(a) => acc.3.push(a),
                    None => acc.3,
                },
            );
            assert forall|k: int| 0 <= k < acc2.0.len() implies plain_line(#[trigger] acc2.0[k]) by {
                if k < acc.0.len() {
                    assert(acc2.0[k] == acc.0[k]);
                } else {
                    assert(acc2.0[k] == r.0[k - acc.0.len()]);
                }
            }
            lemma_sources_plain_lines(ls, i + n, path, acc2);
            assert(sources_disable_from(ls, i, path, acc) == sources_disable_from(ls, i + n, path, acc2));
        }
    } else {
        assert(sources_disable_from(ls, i, path, acc) == acc);
    }
}

/// Turning off the stanzas of a `.sources` file a second time turns
/// nothing more off, finds off already every stanza that the first time
/// turned off or found off (every stanza of the file), records nothing, and leaves the file as the
/// first time wrote it, for a file that never has two carriage returns
/// before a line feed and whose unterminated last line, if any, does not
/// end with one.
pub proof fn law_sources_disable_is_idempotent(content: Seq<char>, path: Seq<char>)
    requires
        !contains(content, "\r\r\n"@),
        !ends_with_newline(content) && lines(content).len() > 0 ==> no_cr_end(lines(content).last()),
    ensures
        sources_disable_spec(sources_disable_spec(content, path).0, path).0 == sources_disable_spec(
            content,
            path,
        ).0,
        sources_disable_spec(sources_disable_spec(content, path).0, path).1 == 0,
        sources_disable_spec(sources_disable_spec(content, path).0, path).2 == sources_disable_spec(
            content,
            path,
        ).1 + sources_disable_spec(content, path).2,
        sources_disable_spec(sources_disable_spec(content, path).0, path).2 == stanza_count_from(
            lines(content),
            0,
        ),
        sources_disable_spec(sources_disable_spec(content, path).0, path).3.len() == 0,
{
    law_sources_every_stanza_is_counted(content, path);
    let ls = lines(content);
    let nl = ends_with_newline(content);
    let start = (Seq::<Seq<char>>::empty(), 0nat, 0nat, Seq::<Seq<char>>::empty());
    let out = sources_disable_from(ls, 0, path, start).0;
    lemma_lines_shape(content);
    assert forall|k: int| 0 <= k < ls.len() implies plain_line(#[trigger] ls[k]) by {
        if k == ls.len() - 1 && !nl {
            assert(ls.last() == ls[k]);
        }
    }
    lemma_sources_plain_lines(ls, 0, path, start);
    if ls.len() > 0 {
        lemma_sources_last_line(ls, 0, path, start);
    } else {
        assert(out == start.0);
    }
    assert forall|i: int| 0 <= i < out.len() implies !(#[trigger] out[i]).contains('\n') by {
        assert(plain_line(out[i]));
    }
    assert forall|i: int| 0 <= i < out.len() implies no_cr_end(#[trigger] out[i]) by {
        assert(plain_line(out[i]));
    }
    lemma_lines_of_joined(out, nl);
    let text1 = rebuild_text(content, out);
    assert(lines(text1) == out);
    lemma_sources_second_pass(ls, 0, path, start, 0, 0, Seq::<Seq<char>>::empty());
    if !nl && out.len() > 0 {
        lemma_join_last(out, "\n"@);
        assert(text1 =~= crate::text::join(out, "\n"@));
        assert(text1.last() != '\n') by {
            assert(plain_line(out.last()));
            assert(out.last().contains(out.last().last()));
        }
    }
    if !nl && out.len() == 0 {
        assert(text1 =~= Seq::<char>::empty());
    }
    if nl {
        reveal_strlit("\n");
        assert(text1.last() == '\n');
    }
    assert(ends_with_newline(text1) == nl);
}


/// Line `t` opens a stanza: it is not blank, and the line before it, if
/// any, is.
pub open spec fn is_stanza_start(ls: Seq<Seq<char>>, t: int) -> bool {
    0 <= t < ls.len() && !is_blank(ls[t]) && (t == 0 || is_blank(ls[t - 1]))
}

/// Number of stanzas that open at line `i` or after it.
pub open spec fn stanza_count_from(ls: Seq<Seq<char>>, i: int) -> nat
    decreases ls.len() - i,
{
    if i < 0 || i >= ls.len() {
        0
    } else {
        stanza_count_from(ls, i + 1) + if is_stanza_start(ls, i) {
            1nat
        } else {
            0nat
        }
    }
}

proof fn lemma_stanza_count_inside(ls: Seq<Seq<char>>, p: int, q: int)
    requires
        0 < p <= q <= ls.len(),
        forall|t: int| p - 1 <= t < q ==> !is_blank(#[trigger] ls[t]),
    ensures
        stanza_count_from(ls, p) == stanza_count_from(ls, q),
    decreases q - p,
{
    if p < q {
        assert(!is_blank(ls[p - 1]));
        lemma_stanza_count_inside(ls, p + 1, q);
    }
}

proof fn lemma_sources_counts(
    ls: Seq<Seq<char>>,
    i: int,
    path: Seq<char>,
    acc: (Seq<Seq<char>>, nat, nat, Seq<Seq<char>>),
)
    requires
        0 <= i,
        i == 0 || i >= ls.len() || is_blank(ls[i - 1]) || is_blank(ls[i]),
    ensures
        sources_disable_from(ls, i, path, acc).1 + sources_disable_from(ls, i, path, acc).2 == acc.1
            + acc.2 + stanza_count_from(ls, i),
    decreases ls.len() - i,
{
    if i < ls.len() {
        if is_blank(ls[i]) {
            lemma_sources_counts(ls, i + 1, path, (acc.0.push(ls[i]), acc.1, acc.2, acc.3));
        } else {
            let n = stanza_len(ls, i);
            lemma_stanza_len(ls, i);
            let st = ls.subrange(i, i + n);
            let r = stanza_disable(st, acc.0.len(), path);
            assert(r.1 != r.2);
            assert(is_stanza_start(ls, i));
            lemma_stanza_count_inside(ls, i + 1, i + n);
            lemma_sources_counts(
                ls,
                i + n,
                path,
                (
                    acc.0 + r.0,
                    acc.1 + if r.1 {
                        1nat
                    } else {
                        0nat
                    },
                    acc.2 + if r.2 {
                        1nat
                    } else {
                        0nat
                    },
                    match r.3 {
                        Some(a) => acc.3.push(a),
                        None => acc.3,
                    },
                ),
            );
        }
    }
}

/// Every stanza of a `.sources` file is either turned off or found off
/// already, once: the two counts add up to the number of stanzas.
pub proof fn law_sources_every_stanza_is_counted(content: Seq<char>, path: Seq<char>)
    ensures
        sources_disable_spec(content, path).1 + sources_disable_spec(content, path).2
            == stanza_count_from(lines(content), 0),
{
    lemma_sources_counts(lines(content), 0, path, (seq![], 0, 0, seq![]));
}


// ---------------------------------------------------------------------------
// A second run over what the first run left
// ---------------------------------------------------------------------------

/// `a` is `b` read back: line for line the same, or without a carriage
/// return that ended it.
pub open spec fn read_back_of(a: Seq<Seq<char>>, b: Seq<Seq<char>>) -> bool {
    &&& a.len() == b.len()
    &&& forall|i: int| 0 <= i < a.len() ==> (#[trigger] a[i] == b[i] || a[i] == strip_cr(b[i]))
}

/// A carriage return that ends a line changes neither whether it is blank
/// nor whether it is an `Enabled` field, nor the trimmed value of one.
proof fn lemma_enabled_value_cr(l: Seq<char>)
    ensures
        is_blank(strip_cr(l)) == is_blank(l),
        (enabled_value(strip_cr(l)) is Some) == (enabled_value(l) is Some),
        enabled_value(l) is Some ==> trim(enabled_value(strip_cr(l))->0) == trim(enabled_value(l)->0),
{
    lemma_strip_cr_push(l);
    if !no_cr_end(l) {
        let a = strip_cr(l);
        lemma_trim_cr(a);
        let t = trim_start(a);
        let tt = trim_start(l);
        if t.len() > 0 {
            assert(tt == t.push('\r'));
            assert(tt[0] == t[0]);
            let k = first_index(t, ':');
            lemma_first_index_bounds(t, ':');
            if k < t.len() {
                assert forall|i: int| 0 <= i < k implies tt[i] != ':' by {
                    assert(tt[i] == t[i]);
                }
                lemma_first_index_is(tt, ':', k);
                assert(tt.take(k) =~= t.take(k));
                assert(tt.skip(k + 1) =~= t.skip(k + 1).push('\r'));
                lemma_trim_cr(t.skip(k + 1));
            } else {
                assert forall|i: int| 0 <= i < tt.len() implies tt[i] != ':' by {
                    if i < t.len() {
                        assert(tt[i] == t[i]);
                    }
                }
                lemma_first_index_is(tt, ':', tt.len() as int);
            }
        } else {
            assert(tt.len() == 0);
            lemma_first_index_bounds(tt, ':');
            lemma_first_index_bounds(t, ':');
        }
    }
}

/// A stanza that is off already stays off, read back.
proof fn lemma_stanza_settled_cr(st: Seq<Seq<char>>, st2: Seq<Seq<char>>, start: nat, path: Seq<char>)
    requires
        stanza_disable(st, start, path) == (st, false, true, None::<Seq<char>>),
        read_back_of(st2, st),
    ensures
        stanza_disable(st2, start, path) == (st2, false, true, None::<Seq<char>>),
{
    lemma_first_enabled_bounds(st);
    let j = first_enabled(st) as int;
    assert(0 <= j < st.len());
    assert forall|i: int| 0 <= i < j implies enabled_value(#[trigger] st2[i]) is None by {
        lemma_enabled_value_cr(st[i]);
    }
    lemma_enabled_value_cr(st[j]);
    lemma_first_enabled_is(st2, j);
}

/// The lines a pass writes hold no line feed when those it reads hold none.
proof fn lemma_stanza_no_line_feed(st: Seq<Seq<char>>, start: nat, path: Seq<char>)
    requires
        forall|i: int| 0 <= i < st.len() ==> !(#[trigger] st[i]).contains('\n'),
    ensures
        forall|i: int|
            0 <= i < stanza_disable(st, start, path).0.len() ==> !(#[trigger] stanza_disable(
                st,
                start,
                path,
            ).0[i]).contains('\n'),
{
    lemma_enabled_no_line();
    lemma_marker_line();
    let r = stanza_disable(st, start, path);
    let j = first_enabled(st) as int;
    assert forall|i: int| 0 <= i < r.0.len() implies !(#[trigger] r.0[i]).contains('\n') by {
        if 0 <= j < st.len() {
            let v = enabled_value(st[j]);
            if !(v is Some && eq_ignore_ascii_case(trim(v->0), "no"@)) {
                if j == 0 || trim(st[j - 1]) != disabled_sources_marker() {
                    if i < j {
                        assert(r.0[i] == st[i]);
                    } else if i > j + 1 {
                        assert(r.0[i] == st[i - 1]);
                    }
                } else if i != j {
                    assert(r.0[i] == st[i]);
                }
            }
        } else if i < st.len() {
            assert(r.0[i] == st[i]);
        }
    }
}

proof fn lemma_sources_no_line_feed(
    ls: Seq<Seq<char>>,
    i: int,
    path: Seq<char>,
    acc: (Seq<Seq<char>>, nat, nat, Seq<Seq<char>>),
)
    requires
        0 <= i,
        forall|k: int| 0 <= k < ls.len() ==> !(#[trigger] ls[k]).contains('\n'),
        forall|k: int| 0 <= k < acc.0.len() ==> !(#[trigger] acc.0[k]).contains('\n'),
    ensures
        forall|k: int|
            0 <= k < sources_disable_from(ls, i, path, acc).0.len() ==> !(
            #[trigger] sources_disable_from(ls, i, path, acc).0[k]).contains('\n'),
    decreases ls.len() - i,
{
    if i < ls.len() {
        if is_blank(ls[i]) {
            let acc2 = (acc.0.push(ls[i]), acc.1, acc.2, acc.3);
            assert forall|k: int| 0 <= k < acc2.0.len() implies !(#[trigger] acc2.0[k]).contains('\n') by {
                if k < acc.0.len() {
                    assert(acc2.0[k] == acc.0[k]);
                }
            }
            lemma_sources_no_line_feed(ls, i + 1, path, acc2);
            assert(sources_disable_from(ls, i, path, acc) == sources_disable_from(ls, i + 1, path, acc2));
        } else {
            let n = stanza_len(ls, i);
            lemma_stanza_len(ls, i);
            let st = ls.subrange(i, i + n);
            assert forall|t: int| 0 <= t < st.len() implies !(#[trigger] st[t]).contains('\n') by {
                assert(st[t] == ls[i + t]);
            }
            let r = stanza_disable(st, acc.0.len(), path);
            lemma_stanza_no_line_feed(st, acc.0.len(), path);
            let acc2 = (
                acc.0 + r.0,
                acc.1 + if r.1 {
                    1nat
                } else {
                    0nat
                },
                acc.2 + if r.2 {
                    1nat
                } else {
                    0nat
                },
                match r.3 {
                    Some(a) => acc.3.push(a),
                    None => acc.3,
                },
            );
            assert forall|k: int| 0 <= k < acc2.0.len() implies !(#[trigger] acc2.0[k]).contains('\n') by {
                if k < acc.0.len() {
                    assert(acc2.0[k] == acc.0[k]);
                } else {
                    assert(acc2.0[k] == r.0[k - acc.0.len()]);
                }
            }
            lemma_sources_no_line_feed(ls, i + n, path, acc2);
            assert(sources_disable_from(ls, i, path, acc) == sources_disable_from(ls, i + n, path, acc2));
        }
    } else {
        assert(sources_disable_from(ls, i, path, acc) == acc);
    }
}

/// Going over the lines that a pass over `ls` wrote, read back, from where
/// the segment at `i` was written, finds every stanza off already: it turns
/// nothing off, records nothing, and counts each of them as off.
proof fn lemma_sources_second_pass_cr(
    ls: Seq<Seq<char>>,
    i: int,
    path: Seq<char>,
    acc: (Seq<Seq<char>>, nat, nat, Seq<Seq<char>>),
    ls2: Seq<Seq<char>>,
    y: Seq<Seq<char>>,
    c2: nat,
    a2: nat,
    x2: Seq<Seq<char>>,
)
    requires
        0 <= i,
        read_back_of(ls2, sources_disable_from(ls, i, path, acc).0),
    ensures
        ({
            let first = sources_disable_from(ls, i, path, acc);
            let second = sources_disable_from(ls2, acc.0.len() as int, path, (y, c2, a2, x2));
            &&& second.1 == c2
            &&& second.3 == x2
            &&& second.2 + acc.1 + acc.2 == a2 + first.1 + first.2
        }),
    decreases ls.len() - i,
{
    let out = sources_disable_from(ls, i, path, acc).0;
    let p = acc.0.len() as int;
    lemma_sources_prefix(ls, i, path, acc);
    if i >= ls.len() {
        assert(out == acc.0);
    } else if is_blank(ls[i]) {
        let acc2 = (acc.0.push(ls[i]), acc.1, acc.2, acc.3);
        lemma_sources_prefix(ls, i + 1, path, acc2);
        assert(out == sources_disable_from(ls, i + 1, path, acc2).0);
        assert(out.take(p + 1)[p] == ls[i]);
        assert(out[p] == ls[i]);
        lemma_enabled_value_cr(out[p]);
        assert(is_blank(ls2[p]));
        lemma_sources_second_pass_cr(ls, i + 1, path, acc2, ls2, y.push(ls2[p]), c2, a2, x2);
    } else {
        let n = stanza_len(ls, i);
        lemma_stanza_len(ls, i);
        let st = ls.subrange(i, i + n);
        assert forall|t: int| 0 <= t < st.len() implies !is_blank(#[trigger] st[t]) by {
            assert(st[t] == ls[i + t]);
        }
        let r = stanza_disable(st, acc.0.len(), path);
        lemma_stanza_settled(st, acc.0.len(), p as nat, path);
        let acc2 = (
            acc.0 + r.0,
            acc.1 + if r.1 {
                1nat
            } else {
                0nat
            },
            acc.2 + if r.2 {
                1nat
            } else {
                0nat
            },
            match r.3 {
                Some(a) => acc.3.push(a),
                None => acc.3,
            },
        );
        assert(out == sources_disable_from(ls, i + n, path, acc2).0);
        lemma_sources_prefix(ls, i + n, path, acc2);
        let m = r.0.len() as int;
        assert forall|t: int| p <= t < p + m implies out[t] == r.0[t - p] by {
            assert(out[t] == out.take(p + m)[t]);
            assert(out.take(p + m)[t] == acc2.0[t]);
        }
        assert forall|t: int| p <= t < p + m implies !is_blank(#[trigger] ls2[t]) by {
            assert(out[t] == r.0[t - p]);
            lemma_enabled_value_cr(out[t]);
        }
        if i + n < ls.len() {
            assert(is_blank(ls[i + n]));
            let acc3 = (acc2.0.push(ls[i + n]), acc2.1, acc2.2, acc2.3);
            lemma_sources_prefix(ls, i + n + 1, path, acc3);
            assert(out == sources_disable_from(ls, i + n + 1, path, acc3).0);
            assert(out.take(p + m + 1)[p + m] == ls[i + n]);
            assert(out[p + m] == ls[i + n]);
            lemma_enabled_value_cr(out[p + m]);
            assert(is_blank(ls2[p + m]));
        } else {
            assert(out == acc2.0);
        }
        lemma_stanza_len_is(ls2, p, m);
        let b2 = ls2.subrange(p, p + m);
        assert forall|t: int| 0 <= t < m implies (#[trigger] b2[t] == r.0[t] || b2[t] == strip_cr(r.0[t])) by {
            assert(b2[t] == ls2[p + t]);
            assert(out[p + t] == r.0[t]);
        }
        lemma_stanza_settled_cr(r.0, b2, p as nat, path);
        assert(r.1 != r.2);
        lemma_sources_second_pass_cr(ls, i + n, path, acc2, ls2, y + b2, c2, a2 + 1, x2);
    }
}

/// What the first run leaves on disk: its text where it turned something
/// off, the file as it was otherwise.
pub open spec fn sources_left_on_disk(content: Seq<char>, path: Seq<char>) -> Seq<char> {
    if sources_disable_spec(content, path).1 > 0 {
        sources_disable_spec(content, path).0
    } else {
        content
    }
}

/// Running over a `.sources` file a second time, over what the first run
/// left, turns nothing more off (so nothing is written), records nothing,
/// and finds every stanza of the file off already; for every file.
pub proof fn law_sources_second_run_changes_nothing(content: Seq<char>, path: Seq<char>)
    ensures
        sources_disable_spec(sources_left_on_disk(content, path), path).1 == 0,
        sources_disable_spec(sources_left_on_disk(content, path), path).2 == stanza_count_from(
            lines(content),
            0,
        ),
        sources_disable_spec(sources_left_on_disk(content, path), path).3.len() == 0,
{
    law_sources_every_stanza_is_counted(content, path);
    law_sources_one_record_per_stanza(content, path);
    if sources_disable_spec(content, path).1 > 0 {
        let ls = lines(content);
        let nl = ends_with_newline(content);
        let start = (Seq::<Seq<char>>::empty(), 0nat, 0nat, Seq::<Seq<char>>::empty());
        let out = sources_disable_from(ls, 0, path, start).0;
        lemma_lines_shape(content);
        lemma_sources_no_line_feed(ls, 0, path, start);
        if ls.len() > 0 {
            lemma_sources_last_line(ls, 0, path, start);
        } else {
            assert(out == start.0);
        }
        lemma_lines_of_joined(out, nl);
        let ls2 = lines(rebuild_text(content, out));
        assert(ls2 == lines_read_back(out, nl));
        assert(read_back_of(ls2, out));
        lemma_sources_second_pass_cr(ls, 0, path, start, ls2, seq![], 0, 0, seq![]);
    }
}


/// A line behind the marker prefix is a comment that names no entry: a
/// pass leaves it as it is and counts nothing for it.
proof fn lemma_prefixed_line(x: Seq<char>)
    ensures
        list_disable_line(disabled_list_prefix() + x) == (disabled_list_prefix() + x, false, false),
{
    reveal_strlit("# debian-upgrade-disabled ");
    reveal_strlit("deb ");
    reveal_strlit("deb-src ");
    reveal_strlit("deb");
    reveal_strlit("deb-src");
    let o = disabled_list_prefix() + x;
    assert(o[0] == '#');
    assert(trim_start(o) == o);
    let d = o.drop_first();
    assert(d[0] == ' ');
    assert(trim_start(d) == trim_start(d.drop_first()));
    let e = d.drop_first();
    assert(e[0] == 'd' && e[1] == 'e' && e[2] == 'b' && e[3] == 'i');
    assert(trim_start(e) == e);
    assert(e.take(4) != "deb "@) by {
        assert(e.take(4)[3] == 'i');
    }
    assert(e.take(8) != "deb-src "@) by {
        assert(e.take(8)[3] == 'i');
    }
    assert(e != "deb"@) by {
        assert(e.len() > 3);
    }
    assert(e != "deb-src"@) by {
        assert(e[3] != "deb-src"@[3]);
    }
}

/// A line as a pass writes it and it is read back (without a carriage
/// return that ends it, when a line feed follows): a disabled entry, or a
/// line without such a carriage return, is settled; another line is read
/// back without that carriage return.
proof fn lemma_list_line_read_back(l: Seq<char>, terminated: bool)
    ensures
        ({
            let o = list_disable_line(l).0;
            let b = if terminated {
                strip_cr(o)
            } else {
                o
            };
            &&& (list_disable_line(l).1 || no_cr_end(l) || !terminated) ==> !list_disable_line(b).1
                && list_disable_line(b).2 == list_disable_line(l).2
            &&& (!list_disable_line(l).1 && terminated) ==> b == strip_cr(l)
        }),
{
    lemma_list_line_settled(l);
    lemma_strip_cr_push(l);
    let o = list_disable_line(l).0;
    if list_disable_line(l).1 {
        reveal_strlit("# debian-upgrade-disabled ");
        lemma_prefixed_line(l);
        if !no_cr_end(l) {
            assert(strip_cr(o) =~= disabled_list_prefix() + strip_cr(l));
            lemma_prefixed_line(strip_cr(l));
        } else {
            if l.len() > 0 {
                assert(o.last() == l.last());
            } else {
                assert(o.last() == ' ');
            }
            assert(strip_cr(o) == o);
        }
    }
}

proof fn lemma_list_lines_at(ls: Seq<Seq<char>>, path: Seq<char>)
    ensures
        list_disable_lines(ls, path).0.len() == ls.len(),
        forall|i: int|
            0 <= i < ls.len() ==> #[trigger] list_disable_lines(ls, path).0[i] == list_disable_line(
                ls[i],
            ).0,
    decreases ls.len(),
{
    if ls.len() > 0 {
        lemma_list_lines_at(ls.drop_last(), path);
        assert forall|i: int| 0 <= i < ls.len() implies #[trigger] list_disable_lines(ls, path).0[i]
            == list_disable_line(ls[i]).0 by {
            if i < ls.len() - 1 {
                assert(ls.drop_last()[i] == ls[i]);
            }
        }
    }
}

/// Lines none of which is an active entry: a pass disables nothing and
/// records nothing; and lines that agree line for line on which were
/// disabled before count as many of them.
proof fn lemma_list_counts_linewise(a: Seq<Seq<char>>, b: Seq<Seq<char>>, path: Seq<char>)
    requires
        a.len() == b.len(),
    ensures
        (forall|i: int| 0 <= i < a.len() ==> !(#[trigger] list_disable_line(a[i])).1) ==> list_disable_lines(
            a,
            path,
        ).1 == 0 && list_disable_lines(a, path).3.len() == 0,
        (forall|i: int| 0 <= i < a.len() ==> (#[trigger] list_disable_line(a[i])).2 == list_disable_line(
            b[i],
        ).2) ==> list_disable_lines(a, path).2 == list_disable_lines(b, path).2,
    decreases a.len(),
{
    if a.len() > 0 {
        lemma_list_counts_linewise(a.drop_last(), b.drop_last(), path);
        if forall|i: int| 0 <= i < a.len() ==> !(#[trigger] list_disable_line(a[i])).1 {
            assert forall|i: int| 0 <= i < a.len() - 1 implies !(#[trigger] list_disable_line(
                a.drop_last()[i],
            )).1 by {
                assert(a.drop_last()[i] == a[i]);
            }
            assert(!list_disable_line(a[a.len() - 1]).1);
        }
        if forall|i: int| 0 <= i < a.len() ==> (#[trigger] list_disable_line(a[i])).2 == list_disable_line(
            b[i],
        ).2 {
            assert forall|i: int| 0 <= i < a.len() - 1 implies (#[trigger] list_disable_line(
                a.drop_last()[i],
            )).2 == list_disable_line(b.drop_last()[i]).2 by {
                assert(a.drop_last()[i] == a[i]);
                assert(b.drop_last()[i] == b[i]);
            }
            assert(list_disable_line(a[a.len() - 1]).2 == list_disable_line(b[b.len() - 1]).2);
        }
    }
}

/// What the first run leaves of a `.list` file on disk: its text where it
/// disabled something, the file as it was otherwise.
pub open spec fn list_left_on_disk(content: Seq<char>, path: Seq<char>) -> Seq<char> {
    if list_disable_spec(content, path).1 > 0 {
        list_disable_spec(content, path).0
    } else {
        content
    }
}

/// Line `i` of `content` is followed by a line feed, ends with a carriage
/// return, and is not an entry that a pass disables.
pub open spec fn kept_cr_line(content: Seq<char>, i: int) -> bool {
    let ls = lines(content);
    &&& 0 <= i < ls.len()
    &&& (i < ls.len() - 1 || ends_with_newline(content))
    &&& !no_cr_end(ls[i])
    &&& !list_disable_line(ls[i]).1
}

/// No such line becomes an active entry once its carriage return is gone.
pub open spec fn cr_lines_stay_inactive(content: Seq<char>) -> bool {
    forall|i: int| #[trigger] kept_cr_line(content, i) ==> !list_disable_line(strip_cr(lines(content)[i])).1
}

/// No such line changes, once its carriage return is gone, whether it is an
/// entry disabled before.
pub open spec fn cr_lines_keep_status(content: Seq<char>) -> bool {
    forall|i: int| #[trigger] kept_cr_line(content, i) ==> list_disable_line(strip_cr(lines(content)[i])).2
        == list_disable_line(lines(content)[i]).2
}

/// Running over a `.list` file a second time, over what the first run left,
/// disables nothing more (so nothing is written) and records nothing, and
/// finds the same entries disabled before; for every file whose first run
/// writes nothing, and otherwise unless a line that ends with a carriage
/// return before its line feed turns into an active entry (or into an
/// entry disabled before, or out of one) once written back without it.
pub proof fn law_list_second_run_changes_nothing(content: Seq<char>, path: Seq<char>)
    ensures
        list_disable_spec(content, path).1 == 0 || cr_lines_stay_inactive(content) ==> list_disable_spec(
            list_left_on_disk(content, path),
            path,
        ).1 == 0 && list_disable_spec(list_left_on_disk(content, path), path).3.len() == 0,
        list_disable_spec(content, path).1 == 0 || (cr_lines_stay_inactive(content)
            && cr_lines_keep_status(content)) ==> list_disable_spec(
            list_left_on_disk(content, path),
            path,
        ).2 == list_disable_spec(content, path).2,
{
    let ls = lines(content);
    law_list_one_record_per_entry(ls, path);
    if list_disable_spec(content, path).1 > 0 {
        reveal_strlit("# debian-upgrade-disabled ");
        let out = list_disable_lines(ls, path).0;
        let nl = ends_with_newline(content);
        lemma_lines_shape(content);
        law_list_lines_are_kept(ls, path);
        lemma_list_lines_at(ls, path);
        assert forall|i: int| 0 <= i < out.len() implies !(#[trigger] out[i]).contains('\n') by {
            if out[i] != ls[i] {
                assert(out[i] == disabled_list_prefix() + ls[i]);
                if out[i].contains('\n') {
                    let j = choose|j: int| 0 <= j < out[i].len() && out[i][j] == '\n';
                    if j >= disabled_list_prefix().len() {
                        assert(ls[i][j - disabled_list_prefix().len()] == '\n');
                        assert(ls[i].contains('\n'));
                    }
                    assert(false);
                }
            }
        }
        if ls.len() == 0 {
            assert(list_disable_lines(ls, path).1 == 0);
        }
        if !nl {
            assert(ls.last() == ls[ls.len() - 1]);
            assert(out.last() == out[out.len() - 1]);
            if out[out.len() - 1] != ls[ls.len() - 1] {
                assert(out.last().len() > ls.last().len());
            }
        }
        lemma_lines_of_joined(out, nl);
        let ls2 = lines(rebuild_text(content, out));
        assert(ls2 == lines_read_back(out, nl));
        assert forall|i: int| 0 <= i < ls.len() implies ({
            let b = ls2[i];
            &&& (cr_lines_stay_inactive(content) ==> !(#[trigger] list_disable_line(ls2[i])).1)
            &&& (cr_lines_stay_inactive(content) && cr_lines_keep_status(content)) ==> list_disable_line(
                b,
            ).2 == list_disable_line(ls[i]).2
        }) by {
            let term = i < ls.len() - 1 || nl;
            lemma_list_line_read_back(ls[i], term);
            if term && !list_disable_line(ls[i]).1 && !no_cr_end(ls[i]) {
                assert(kept_cr_line(content, i));
            }
        }
        lemma_list_counts_linewise(ls2, ls, path);
    }
}

} // verus!
