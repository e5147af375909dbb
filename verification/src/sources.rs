//! Moving the official APT sources to the codename of the next major
//! release: one-line `sources.list` entries and deb822 `Suites:` fields.
use vstd::prelude::*;
use crate::text::{
    chars_of, contains, ends_with_newline, find_char, is_word, is_ws, join, lemma_join_front,
    lemma_join_last, lemma_join_push, lemma_joined_words_shape, lemma_lines_of_joined,
    lemma_first_hash_at, lemma_join_first, lemma_join_words_avoid, lemma_lines_shape,
    lemma_no_char_concat, lemma_split_joined_words, lemma_split_ws_first, lemma_split_ws_nonempty,
    lemma_split_ws_words, lemma_trim_start_prefix_ws,
    line_ranges, lines,
    no_cr_end, opt_view, range_eq, range_starts_with, skip_ws, slice_of, split_once, split_ws,
    split_ws_ranges, starts_with, string_of, trim_start,
};

verus! {

// ---------------------------------------------------------------------------
// Suite mapping
// ---------------------------------------------------------------------------

/// The suite that `suite` becomes when the system moves from `from` to `to`:
/// the codename itself, its `-updates` and `-security` suites, and the
/// `stable`/`oldstable` aliases all move to the target; other suites stay.
pub open spec fn map_suite(suite: Seq<char>, from: Seq<char>, to: Seq<char>) -> Option<Seq<char>> {
    if suite == from {
        Some(to)
    } else if suite == from + "-updates"@ {
        Some(to + "-updates"@)
    } else if suite == from + "-security"@ {
        Some(to + "-security"@)
    } else if suite == "stable"@ || suite == "oldstable"@ {
        Some(to)
    } else if suite == "stable-updates"@ || suite == "oldstable-updates"@ {
        Some(to + "-updates"@)
    } else if suite == "stable-security"@ || suite == "oldstable-security"@ {
        Some(to + "-security"@)
    } else {
        None
    }
}

/// The names a suite is compared with and replaced by.
pub struct SuiteNames {
    from: Vec<char>,
    from_updates: Vec<char>,
    from_security: Vec<char>,
    to: String,
    to_updates: String,
    to_security: String,
    stable: Vec<char>,
    oldstable: Vec<char>,
    stable_updates: Vec<char>,
    oldstable_updates: Vec<char>,
    stable_security: Vec<char>,
    oldstable_security: Vec<char>,
}

impl SuiteNames {
    pub closed spec fn names(&self, from: Seq<char>, to: Seq<char>) -> bool {
        &&& self.from@ == from
        &&& self.from_updates@ == from + "-updates"@
        &&& self.from_security@ == from + "-security"@
        &&& self.to@ == to
        &&& self.to_updates@ == to + "-updates"@
        &&& self.to_security@ == to + "-security"@
        &&& self.stable@ == "stable"@
        &&& self.oldstable@ == "oldstable"@
        &&& self.stable_updates@ == "stable-updates"@
        &&& self.oldstable_updates@ == "oldstable-updates"@
        &&& self.stable_security@ == "stable-security"@
        &&& self.oldstable_security@ == "oldstable-security"@
    }

    pub fn new(from: &str, to: &str) -> (r: SuiteNames)
        ensures
            r.names(from@, to@),
    {
        let fu = string_of(from).concat("-updates");
        let fs = string_of(from).concat("-security");
        SuiteNames {
            from: chars_of(from),
            from_updates: chars_of(fu.as_str()),
            from_security: chars_of(fs.as_str()),
            to: string_of(to),
            to_updates: string_of(to).concat("-updates"),
            to_security: string_of(to).concat("-security"),
            stable: chars_of("stable"),
            oldstable: chars_of("oldstable"),
            stable_updates: chars_of("stable-updates"),
            oldstable_updates: chars_of("oldstable-updates"),
            stable_security: chars_of("stable-security"),
            oldstable_security: chars_of("oldstable-security"),
        }
    }

    /// The replacement of the suite `cs[a..b]`, if it moves.
    pub fn map(&self, cs: &Vec<char>, a: usize, b: usize) -> (r: Option<String>)
        requires
            a <= b <= cs.len(),
        ensures
            forall|from: Seq<char>, to: Seq<char>|
                self.names(from, to) ==> opt_view(r) == map_suite(
                    cs@.subrange(a as int, b as int),
                    from,
                    to,
                ),
    {
        if range_eq(cs, a, b, &self.from) {
            Some(self.to.clone())
        } else if range_eq(cs, a, b, &self.from_updates) {
            Some(self.to_updates.clone())
        } else if range_eq(cs, a, b, &self.from_security) {
            Some(self.to_security.clone())
        } else if range_eq(cs, a, b, &self.stable) || range_eq(cs, a, b, &self.oldstable) {
            Some(self.to.clone())
        } else if range_eq(cs, a, b, &self.stable_updates) || range_eq(
            cs,
            a,
            b,
            &self.oldstable_updates,
        ) {
            Some(self.to_updates.clone())
        } else if range_eq(cs, a, b, &self.stable_security) || range_eq(
            cs,
            a,
            b,
            &self.oldstable_security,
        ) {
            Some(self.to_security.clone())
        } else {
            None
        }
    }
}

// ---------------------------------------------------------------------------
// One-line style: /etc/apt/sources.list
// ---------------------------------------------------------------------------

/// Words of an entry after its suite (third word) was moved.
pub open spec fn list_entry_words(words: Seq<Seq<char>>, from: Seq<char>, to: Seq<char>) -> Seq<Seq<char>> {
    if words.len() >= 3 && (words[0] == "deb"@ || words[0] == "deb-src"@) {
        match map_suite(words[2], from, to) {
            Some(s) => words.update(2, s),
            None => words,
        }
    } else {
        words
    }
}

/// The entry's suite moves.
pub open spec fn list_entry_changes(words: Seq<Seq<char>>, from: Seq<char>, to: Seq<char>) -> bool {
    words.len() >= 3 && (words[0] == "deb"@ || words[0] == "deb-src"@) && map_suite(
        words[2],
        from,
        to,
    ) is Some
}

/// A line of `sources.list` once rewritten, and whether its suite moved:
/// blank and comment lines stay as they are; other lines are rebuilt from
/// their words joined by single spaces, followed by their comment.
pub open spec fn list_line(line: Seq<char>, from: Seq<char>, to: Seq<char>) -> (Seq<char>, bool) {
    let t = trim_start(line);
    if t.len() == 0 || t[0] == '#' {
        (line, false)
    } else {
        let main = match split_once(line, '#') {
            Some(p) => p.0,
            None => line,
        };
        let words = split_ws(main);
        let rebuilt = join(list_entry_words(words, from, to), " "@);
        let out = match split_once(line, '#') {
            Some(p) => if rebuilt.len() > 0 {
                rebuilt + " "@ + "#"@ + p.1
            } else {
                rebuilt + "#"@ + p.1
            },
            None => rebuilt,
        };
        (out, list_entry_changes(words, from, to))
    }
}

/// The rewritten lines and the number of entries whose suite moved.
pub open spec fn list_lines(ls: Seq<Seq<char>>, from: Seq<char>, to: Seq<char>) -> (Seq<Seq<char>>, nat)
    decreases ls.len(),
{
    if ls.len() == 0 {
        (seq![], 0)
    } else {
        let prev = list_lines(ls.drop_last(), from, to);
        let l = list_line(ls.last(), from, to);
        (prev.0.push(l.0), prev.1 + if l.1 {
            1nat
        } else {
            0nat
        })
    }
}

/// Text rebuilt from lines, keeping a final line feed.
pub open spec fn rebuild_text(content: Seq<char>, ls: Seq<Seq<char>>) -> Seq<char> {
    join(ls, "\n"@) + if ends_with_newline(content) {
        "\n"@
    } else {
        Seq::<char>::empty()
    }
}

/// New text of `sources.list` and number of entries moved from `from` to `to`.
pub open spec fn rewrite_list_spec(content: Seq<char>, from: Seq<char>, to: Seq<char>) -> (Seq<char>, nat) {
    let r = list_lines(lines(content), from, to);
    (rebuild_text(content, r.0), r.1)
}

/// `join` of words `cs[ranges]`, the third replaced by `third` when given.
fn join_words(
    src: &str,
    cs: &Vec<char>,
    ranges: &Vec<(usize, usize)>,
    third: &Option<String>,
    ghost_words: Ghost<Seq<Seq<char>>>,
) -> (r: String)
    requires
        cs@ == src@,
        ranges.len() == ghost_words@.len(),
        forall|k: int|
            0 <= k < ranges.len() ==> (#[trigger] ranges@[k]).0 <= ranges@[k].1 <= cs.len()
                && cs@.subrange(ranges@[k].0 as int, ranges@[k].1 as int) == ghost_words@[k],
        third is Some ==> ranges.len() >= 3,
    ensures
        r@ == join(
            match third {
                Some(t) => ghost_words@.update(2, t@),
                None => ghost_words@,
            },
            " "@,
        ),
{
    let ghost words = match third {
        Some(t) => ghost_words@.update(2, t@),
        None => ghost_words@,
    };
    let mut out = String::new();
    let mut k: usize = 0;
    while k < ranges.len()
        invariant
            cs@ == src@,
            ranges.len() == ghost_words@.len(),
            words.len() == ranges.len(),
            words == match third {
                Some(t) => ghost_words@.update(2, t@),
                None => ghost_words@,
            },
            forall|t: int|
                0 <= t < ranges.len() ==> (#[trigger] ranges@[t]).0 <= ranges@[t].1 <= cs.len()
                    && cs@.subrange(ranges@[t].0 as int, ranges@[t].1 as int) == ghost_words@[t],
            third is Some ==> ranges.len() >= 3,
            0 <= k <= ranges.len(),
            out@ == join(words.take(k as int), " "@),
        decreases ranges.len() - k,
    {
        let (a, b) = ranges[k];
        proof {
            assert(words.take(k + 1) =~= words.take(k as int).push(words[k as int]));
            lemma_join_push(words.take(k as int), " "@, words[k as int]);
        }
        if k > 0 {
            out.append(" ");
        }
        match third {
            Some(t) => {
                if k == 2 {
                    out.append(t.as_str());
                } else {
                    out.append(slice_of(src, a, b));
                }
            },
            None => {
                out.append(slice_of(src, a, b));
            },
        }
        k = k + 1;
    }
    proof {
        assert(words.take(ranges.len() as int) =~= words);
    }
    out
}

/// Rewrites one line `src[a..b]` of `sources.list`.
fn rewrite_list_line(src: &str, cs: &Vec<char>, a: usize, b: usize, names: &SuiteNames, p_deb: &Vec<
    char,
>, p_deb_src: &Vec<char>, from: Ghost<Seq<char>>, to: Ghost<Seq<char>>) -> (r: (String, bool))
    requires
        cs@ == src@,
        a <= b <= cs.len(),
        names.names(from@, to@),
        p_deb@ == "deb"@,
        p_deb_src@ == "deb-src"@,
    ensures
        (r.0@, r.1) == list_line(cs@.subrange(a as int, b as int), from@, to@),
{
    let ghost line = cs@.subrange(a as int, b as int);
    let ts = skip_ws(cs, a, b);
    if ts == b || cs[ts] == '#' {
        proof {
            if ts < b {
                assert(trim_start(line)[0] == cs@[ts as int]);
            }
        }
        return (string_of(slice_of(src, a, b)), false);
    }
    proof {
        assert(trim_start(line)[0] == cs@[ts as int]);
    }
    let h = find_char(cs, a, b, '#');
    proof {
        if h < b {
            assert(line.take(h - a) =~= cs@.subrange(a as int, h as int));
            assert(line.skip(h - a + 1) =~= cs@.subrange(h + 1, b as int));
        } else {
            assert(line =~= cs@.subrange(a as int, h as int));
        }
    }
    let words = split_ws_ranges(cs, a, h);
    let ghost ws = split_ws(cs@.subrange(a as int, h as int));
    let mut third: Option<String> = None;
    if words.len() >= 3 {
        let (a0, b0) = words[0];
        if range_eq(cs, a0, b0, p_deb) || range_eq(cs, a0, b0, p_deb_src) {
            let (a2, b2) = words[2];
            third = names.map(cs, a2, b2);
        }
    }
    let changed = third.is_some();
    let ghost third_v = third;
    proof {
        assert(ws.len() == words.len());
        if words.len() >= 3 {
            assert(ws[0] == cs@.subrange(words@[0].0 as int, words@[0].1 as int));
            assert(ws[2] == cs@.subrange(words@[2].0 as int, words@[2].1 as int));
        }
        assert(changed == list_entry_changes(ws, from@, to@));
        assert(match third_v {
            Some(t) => ws.update(2, t@),
            None => ws,
        } == list_entry_words(ws, from@, to@));
    }
    let mut out = join_words(src, cs, &words, &third, Ghost(ws));
    if h < b {
        if out.as_str().unicode_len() > 0 {
            out.append(" ");
        }
        out.append("#");
        out.append(slice_of(src, h + 1, b));
    }
    (out, changed)
}

/// Moves the suites of `sources.list` text from `from` to `to`; gives the
/// new text and the number of entries whose suite moved.
pub fn rewrite_sources_list(content: &str, from: &str, to: &str) -> (r: (String, usize))
    ensures
        (r.0@, r.1 as nat) == rewrite_list_spec(content@, from@, to@),
{
    let cs = chars_of(content);
    let ranges = line_ranges(&cs);
    let ghost ls = lines(cs@);
    let names = SuiteNames::new(from, to);
    let p_deb = chars_of("deb");
    let p_deb_src = chars_of("deb-src");
    let mut out = String::new();
    let mut changed: usize = 0;
    let mut k: usize = 0;
    while k < ranges.len()
        invariant
            cs@ == content@,
            ls == lines(cs@),
            ranges.len() == ls.len(),
            names.names(from@, to@),
            p_deb@ == "deb"@,
            p_deb_src@ == "deb-src"@,
            forall|t: int|
                0 <= t < ranges.len() ==> (#[trigger] ranges@[t]).0 <= ranges@[t].1 <= cs.len()
                    && cs@.subrange(ranges@[t].0 as int, ranges@[t].1 as int) == ls[t],
            0 <= k <= ranges.len(),
            out@ == join(list_lines(ls.take(k as int), from@, to@).0, "\n"@),
            changed as nat == list_lines(ls.take(k as int), from@, to@).1,
            changed <= k,
        decreases ranges.len() - k,
    {
        let (a, b) = ranges[k];
        let (line, moved) = rewrite_list_line(
            content,
            &cs,
            a,
            b,
            &names,
            &p_deb,
            &p_deb_src,
            Ghost(from@),
            Ghost(to@),
        );
        proof {
            assert(ls.take(k + 1).drop_last() =~= ls.take(k as int));
            assert(ls.take(k + 1).last() == ls[k as int]);
            let prev = list_lines(ls.take(k as int), from@, to@).0;
            lemma_join_push(prev, "\n"@, line@);
        }
        if k > 0 {
            out.append("\n");
        }
        out.append(line.as_str());
        if moved {
            changed = changed + 1;
        }
        k = k + 1;
    }
    proof {
        assert(ls.take(ranges.len() as int) =~= ls);
    }
    if cs.len() > 0 && cs[cs.len() - 1] == '\n' {
        out.append("\n");
    }
    (out, changed)
}

// ---------------------------------------------------------------------------
// deb822 style: debian.sources
// ---------------------------------------------------------------------------

/// The suites once moved, and how many moved.
pub open spec fn moved_suites(parts: Seq<Seq<char>>, from: Seq<char>, to: Seq<char>) -> (Seq<Seq<char>>, nat)
    decreases parts.len(),
{
    if parts.len() == 0 {
        (seq![], 0)
    } else {
        let prev = moved_suites(parts.drop_last(), from, to);
        match map_suite(parts.last(), from, to) {
            Some(s) => (prev.0.push(s), prev.1 + 1),
            None => (prev.0.push(parts.last()), prev.1),
        }
    }
}

/// A deb822 line once rewritten, and how many suites moved: a line whose
/// trimmed text starts with `Suites:` becomes `Suites: ` followed by its
/// words after the first, moved, joined by single spaces.
pub open spec fn deb822_line(line: Seq<char>, from: Seq<char>, to: Seq<char>) -> (Seq<char>, nat) {
    let t = trim_start(line);
    if starts_with(t, "Suites:"@) {
        let m = moved_suites(split_ws(t).drop_first(), from, to);
        ("Suites: "@ + join(m.0, " "@), m.1)
    } else {
        (line, 0)
    }
}

pub open spec fn deb822_lines(ls: Seq<Seq<char>>, from: Seq<char>, to: Seq<char>) -> (Seq<Seq<char>>, nat)
    decreases ls.len(),
{
    if ls.len() == 0 {
        (seq![], 0)
    } else {
        let prev = deb822_lines(ls.drop_last(), from, to);
        let l = deb822_line(ls.last(), from, to);
        (prev.0.push(l.0), prev.1 + l.1)
    }
}

/// New text of a deb822 file and number of suites moved from `from` to `to`.
pub open spec fn rewrite_deb822_spec(content: Seq<char>, from: Seq<char>, to: Seq<char>) -> (Seq<char>, nat) {
    let r = deb822_lines(lines(content), from, to);
    (rebuild_text(content, r.0), r.1)
}

fn rewrite_deb822_line(src: &str, cs: &Vec<char>, a: usize, b: usize, names: &SuiteNames, p_suites: &Vec<
    char,
>, from: Ghost<Seq<char>>, to: Ghost<Seq<char>>) -> (r: (String, usize))
    requires
        cs@ == src@,
        a <= b <= cs.len(),
        names.names(from@, to@),
        p_suites@ == "Suites:"@,
    ensures
        (r.0@, r.1 as nat) == deb822_line(cs@.subrange(a as int, b as int), from@, to@),
        r.1 <= b - a,
{
    let ghost line = cs@.subrange(a as int, b as int);
    let ts = skip_ws(cs, a, b);
    if !range_starts_with(cs, ts, b, p_suites) {
        return (string_of(slice_of(src, a, b)), 0);
    }
    let words = split_ws_ranges(cs, ts, b);
    let ghost ws = split_ws(cs@.subrange(ts as int, b as int));
    let ghost parts = ws.drop_first();
    let mut out = string_of("Suites: ");
    let mut count: usize = 0;
    let mut k: usize = 1;
    proof {
        assert(parts.take(0) =~= Seq::<Seq<char>>::empty());
        assert(ws.len() >= 1) by {
            let t = cs@.subrange(ts as int, b as int);
            reveal_strlit("Suites:");
            assert(starts_with(t, "Suites:"@));
            assert(t.len() >= 7);
            assert(t.take(7)[0] == t[0]);
            assert(t[0] == 'S');
            crate::text::lemma_split_ws_nonempty(t);
        }
    }
    while k < words.len()
        invariant
            cs@ == src@,
            names.names(from@, to@),
            ws.len() == words.len(),
            ws.len() >= 1,
            parts == ws.drop_first(),
            forall|t: int|
                0 <= t < words.len() ==> ts <= (#[trigger] words@[t]).0 < words@[t].1 <= b
                    && cs@.subrange(words@[t].0 as int, words@[t].1 as int) == ws[t],
            a <= ts <= b <= cs.len(),
            1 <= k <= words.len(),
            out@ == "Suites: "@ + join(moved_suites(parts.take(k - 1), from@, to@).0, " "@),
            count as nat == moved_suites(parts.take(k - 1), from@, to@).1,
            count < k,
            words.len() <= b - ts,
        decreases words.len() - k,
    {
        let (x, y) = words[k];
        let mapped = names.map(cs, x, y);
        proof {
            let pt = parts.take(k - 1);
            assert(parts.take(k as int).drop_last() =~= pt);
            assert(parts.take(k as int).last() == ws[k as int]);
            let prev = moved_suites(pt, from@, to@).0;
            let next = match &mapped {
                Some(s) => s@,
                None => ws[k as int],
            };
            lemma_join_push(prev, " "@, next);
            assert(("Suites: "@ + join(prev, " "@)) + (if prev.len() == 0 {
                Seq::<char>::empty()
            } else {
                " "@
            }) + next =~= "Suites: "@ + join(prev.push(next), " "@));
        }
        if k > 1 {
            out.append(" ");
        }
        match mapped {
            Some(s) => {
                out.append(s.as_str());
                count = count + 1;
            },
            None => {
                out.append(slice_of(src, x, y));
            },
        }
        k = k + 1;
    }
    proof {
        assert(parts.take(words.len() - 1) =~= parts);
        assert(trim_start(line) == cs@.subrange(ts as int, b as int));
    }
    (out, count)
}

/// Moves the `Suites:` of a deb822 sources file from `from` to `to`; gives
/// the new text and the number of suites moved.
pub fn rewrite_debian_sources(content: &str, from: &str, to: &str) -> (r: (String, usize))
    ensures
        (r.0@, r.1 as nat) == rewrite_deb822_spec(content@, from@, to@),
{
    let cs = chars_of(content);
    let ranges = line_ranges(&cs);
    let ghost ls = lines(cs@);
    let names = SuiteNames::new(from, to);
    let p_suites = chars_of("Suites:");
    let mut out = String::new();
    let mut changed: usize = 0;
    let mut k: usize = 0;
    while k < ranges.len()
        invariant
            cs@ == content@,
            ls == lines(cs@),
            ranges.len() == ls.len(),
            names.names(from@, to@),
            p_suites@ == "Suites:"@,
            forall|t: int|
                0 <= t < ranges.len() ==> (#[trigger] ranges@[t]).0 <= ranges@[t].1 <= cs.len()
                    && cs@.subrange(ranges@[t].0 as int, ranges@[t].1 as int) == ls[t],
            forall|t: int| 0 <= t && t + 1 < ranges.len() ==> (#[trigger] ranges@[t]).1 <= ranges@[t + 1].0,
            0 <= k <= ranges.len(),
            out@ == join(deb822_lines(ls.take(k as int), from@, to@).0, "\n"@),
            changed as nat == deb822_lines(ls.take(k as int), from@, to@).1,
            k < ranges.len() ==> changed <= ranges@[k as int].0,
            k == ranges.len() ==> changed <= cs.len(),
        decreases ranges.len() - k,
    {
        let (a, b) = ranges[k];
        let (line, moved) = rewrite_deb822_line(
            content,
            &cs,
            a,
            b,
            &names,
            &p_suites,
            Ghost(from@),
            Ghost(to@),
        );
        proof {
            assert(ls.take(k + 1).drop_last() =~= ls.take(k as int));
            assert(ls.take(k + 1).last() == ls[k as int]);
            let prev = deb822_lines(ls.take(k as int), from@, to@).0;
            lemma_join_push(prev, "\n"@, line@);
        }
        if k > 0 {
            out.append("\n");
        }
        out.append(line.as_str());
        changed = changed + moved;
        k = k + 1;
    }
    proof {
        assert(ls.take(ranges.len() as int) =~= ls);
    }
    if cs.len() > 0 && cs[cs.len() - 1] == '\n' {
        out.append("\n");
    }
    (out, changed)
}


// ---------------------------------------------------------------------------
// Laws
// ---------------------------------------------------------------------------

/// The target's own suites are not among those that move: `to`,
/// `to-updates` and `to-security` stay as they are.
pub open spec fn fresh_target(from: Seq<char>, to: Seq<char>) -> bool {
    &&& map_suite(to, from, to) is None
    &&& map_suite(to + "-updates"@, from, to) is None
    &&& map_suite(to + "-security"@, from, to) is None
}

/// Every suite moves to the target: once a `Suites:` field is rewritten,
/// none of its suites would move again, and the field keeps its number of
/// suites.
pub proof fn law_deb822_suites_all_moved(parts: Seq<Seq<char>>, from: Seq<char>, to: Seq<char>)
    requires
        fresh_target(from, to),
    ensures
        moved_suites(parts, from, to).0.len() == parts.len(),
        forall|i: int|
            0 <= i < parts.len() ==> map_suite(#[trigger] moved_suites(parts, from, to).0[i], from, to) is None,
    decreases parts.len(),
{
    if parts.len() > 0 {
        law_deb822_suites_all_moved(parts.drop_last(), from, to);
        let prev = moved_suites(parts.drop_last(), from, to);
        assert forall|i: int| 0 <= i < parts.len() implies map_suite(
            #[trigger] moved_suites(parts, from, to).0[i],
            from,
            to,
        ) is None by {
            if i < parts.len() - 1 {
                assert(moved_suites(parts, from, to).0[i] == prev.0[i]);
            }
        }
    }
}

/// Every suite moves to the target: once a `deb`/`deb-src` entry of
/// `sources.list` is rewritten, its suite would not move again.
pub proof fn law_list_suite_moved(words: Seq<Seq<char>>, from: Seq<char>, to: Seq<char>)
    requires
        fresh_target(from, to),
        words.len() >= 3,
        words[0] == "deb"@ || words[0] == "deb-src"@,
    ensures
        map_suite(list_entry_words(words, from, to)[2], from, to) is None,
        list_entry_words(words, from, to).len() == words.len(),
{
}


proof fn lemma_moved_suites_settled(parts: Seq<Seq<char>>, from: Seq<char>, to: Seq<char>)
    requires
        forall|i: int| 0 <= i < parts.len() ==> map_suite(#[trigger] parts[i], from, to) is None,
    ensures
        moved_suites(parts, from, to) == (parts, 0nat),
    decreases parts.len(),
{
    if parts.len() > 0 {
        lemma_moved_suites_settled(parts.drop_last(), from, to);
        assert(map_suite(parts[parts.len() - 1], from, to) is None);
        assert(parts.drop_last().push(parts.last()) =~= parts);
    }
}

proof fn lemma_moved_suites_words(parts: Seq<Seq<char>>, from: Seq<char>, to: Seq<char>)
    requires
        is_word(to),
        forall|i: int| 0 <= i < parts.len() ==> is_word(#[trigger] parts[i]),
    ensures
        forall|i: int|
            0 <= i < moved_suites(parts, from, to).0.len() ==> is_word(
                #[trigger] moved_suites(parts, from, to).0[i],
            ),
    decreases parts.len(),
{
    reveal_strlit("-updates");
    reveal_strlit("-security");
    if parts.len() > 0 {
        lemma_moved_suites_words(parts.drop_last(), from, to);
        let prev = moved_suites(parts.drop_last(), from, to);
        let m = moved_suites(parts, from, to).0;
        assert(is_word(parts[parts.len() - 1]));
        assert(is_word(to + "-updates"@)) by {
            assert forall|i: int| 0 <= i < (to + "-updates"@).len() implies !is_ws(
                #[trigger] (to + "-updates"@)[i],
            ) by {
                if i < to.len() {
                    assert((to + "-updates"@)[i] == to[i]);
                }
            }
        }
        assert(is_word(to + "-security"@)) by {
            assert forall|i: int| 0 <= i < (to + "-security"@).len() implies !is_ws(
                #[trigger] (to + "-security"@)[i],
            ) by {
                if i < to.len() {
                    assert((to + "-security"@)[i] == to[i]);
                }
            }
        }
        assert forall|i: int| 0 <= i < m.len() implies is_word(#[trigger] m[i]) by {
            if i < prev.0.len() {
                assert(m[i] == prev.0[i]);
            }
        }
    }
}

/// The `Suites:` line as the first pass writes it, seen as words.
proof fn lemma_suites_line_words(m: Seq<Seq<char>>)
    requires
        forall|i: int| 0 <= i < m.len() ==> is_word(#[trigger] m[i]),
    ensures
        split_ws("Suites: "@ + join(m, " "@)) == seq!["Suites:"@] + m,
{
    reveal_strlit("Suites: ");
    reveal_strlit("Suites:");
    reveal_strlit(" ");
    let words = seq!["Suites:"@] + m;
    assert forall|i: int| 0 <= i < words.len() implies is_word(#[trigger] words[i]) by {
        if i > 0 {
            assert(words[i] == m[i - 1]);
        } else {
            assert(words[0] == "Suites:"@);
        }
    }
    if m.len() == 0 {
        assert(join(words, " "@) == "Suites:"@);
        assert("Suites: "@ + join(m, " "@) =~= join(words, " "@) + " "@);
        lemma_split_joined_words(words, " "@);
    } else {
        lemma_join_front(words, " "@);
        assert(words.drop_first() =~= m);
        assert("Suites: "@ + join(m, " "@) =~= join(words, " "@) + Seq::<char>::empty());
        lemma_split_joined_words(words, Seq::<char>::empty());
    }
}

proof fn lemma_deb822_line_settled(l: Seq<char>, from: Seq<char>, to: Seq<char>)
    requires
        fresh_target(from, to),
        is_word(to),
    ensures
        deb822_line(deb822_line(l, from, to).0, from, to) == (deb822_line(l, from, to).0, 0nat),
        !l.contains('\n') ==> !deb822_line(l, from, to).0.contains('\n'),
        no_cr_end(l) ==> no_cr_end(deb822_line(l, from, to).0),
        l.len() > 0 ==> deb822_line(l, from, to).0.len() > 0,
{
    reveal_strlit("Suites: ");
    reveal_strlit("Suites:");
    let t = trim_start(l);
    if starts_with(t, "Suites:"@) {
        assert(t[0] == t.take(7)[0]);
        assert(!is_ws(t[0]));
        lemma_split_ws_nonempty(t);
        let parts = split_ws(t).drop_first();
        lemma_split_ws_words(t, '\n');
        assert forall|i: int| 0 <= i < parts.len() implies is_word(#[trigger] parts[i]) by {
            assert(parts[i] == split_ws(t)[i + 1]);
        }
        let m = moved_suites(parts, from, to);
        lemma_moved_suites_words(parts, from, to);
        law_deb822_suites_all_moved(parts, from, to);
        let o = "Suites: "@ + join(m.0, " "@);
        lemma_suites_line_words(m.0);
        assert(o[0] == 'S');
        assert(!is_ws(o[0]));
        assert(trim_start(o) == o);
        assert(o.take(7) =~= "Suites:"@);
        assert(split_ws(o).drop_first() =~= m.0);
        lemma_moved_suites_settled(m.0, from, to);
        lemma_joined_words_shape(m.0);
        let j = join(m.0, " "@);
        assert forall|k: int| 0 <= k < o.len() implies o[k] != '\n' by {
            if k >= 8 {
                assert(o[k] == j[k - 8]);
            }
        }
        if o.contains('\n') {
            let k = choose|k: int| 0 <= k < o.len() && o[k] == '\n';
            assert(false);
        }
        if m.0.len() > 0 {
            assert(o.last() == j.last());
        } else {
            assert(o.last() == ' ');
        }
    }
}

proof fn lemma_deb822_second_pass(ls: Seq<Seq<char>>, from: Seq<char>, to: Seq<char>)
    requires
        fresh_target(from, to),
        is_word(to),
    ensures
        deb822_lines(deb822_lines(ls, from, to).0, from, to) == (deb822_lines(ls, from, to).0, 0nat),
        deb822_lines(ls, from, to).0.len() == ls.len(),
        forall|i: int|
            0 <= i < ls.len() ==> #[trigger] deb822_lines(ls, from, to).0[i] == deb822_line(
                ls[i],
                from,
                to,
            ).0,
    decreases ls.len(),
{
    if ls.len() > 0 {
        lemma_deb822_second_pass(ls.drop_last(), from, to);
        lemma_deb822_line_settled(ls.last(), from, to);
        let out = deb822_lines(ls, from, to).0;
        assert(out.drop_last() =~= deb822_lines(ls.drop_last(), from, to).0);
        assert forall|i: int| 0 <= i < ls.len() implies #[trigger] deb822_lines(ls, from, to).0[i]
            == deb822_line(ls[i], from, to).0 by {
            if i < ls.len() - 1 {
                assert(out[i] == deb822_lines(ls.drop_last(), from, to).0[i]);
                assert(ls.drop_last()[i] == ls[i]);
            }
        }
    }
}

/// Moving the suites of a deb822 file twice moves nothing the second time
/// and leaves the file as the first time wrote it, when the target is a
/// single word whose own suites do not move (and the file has no two
/// carriage returns before a line feed, which line splitting folds).
pub proof fn law_deb822_rewrite_is_idempotent(content: Seq<char>, from: Seq<char>, to: Seq<char>)
    requires
        fresh_target(from, to),
        is_word(to),
        !contains(content, "\r\r\n"@),
    ensures
        rewrite_deb822_spec(rewrite_deb822_spec(content, from, to).0, from, to) == (
            rewrite_deb822_spec(content, from, to).0,
            0nat,
        ),
{
    let ls = lines(content);
    let out = deb822_lines(ls, from, to).0;
    let nl = ends_with_newline(content);
    lemma_lines_shape(content);
    lemma_deb822_second_pass(ls, from, to);
    assert forall|i: int| 0 <= i < out.len() implies !(#[trigger] out[i]).contains('\n') by {
        lemma_deb822_line_settled(ls[i], from, to);
    }
    assert forall|i: int| 0 <= i < out.len() && (i < out.len() - 1 || nl) implies no_cr_end(
        #[trigger] out[i],
    ) by {
        lemma_deb822_line_settled(ls[i], from, to);
    }
    if !nl && out.len() > 0 {
        lemma_deb822_line_settled(ls[ls.len() - 1], from, to);
        assert(out.last() == out[out.len() - 1]);
    }
    lemma_lines_of_joined(out, nl);
    let text1 = rebuild_text(content, out);
    assert(lines(text1) == out);
    if !nl && out.len() > 0 {
        lemma_join_last(out, "\n"@);
        assert(text1 =~= join(out, "\n"@));
        assert(!out.last().contains('\n'));
        assert(text1.last() != '\n');
    }
    if !nl && out.len() == 0 {
        assert(text1 =~= Seq::<char>::empty());
    }
    if nl {
        reveal_strlit("\n");
        assert(text1.last() == '\n');
    }
    assert(ends_with_newline(text1) == nl);
}


proof fn lemma_entry_words(words: Seq<Seq<char>>, from: Seq<char>, to: Seq<char>)
    requires
        fresh_target(from, to),
        is_word(to),
        !to.contains('#'),
        forall|i: int| 0 <= i < words.len() ==> is_word(#[trigger] words[i]) && !words[i].contains('#'),
    ensures
        list_entry_words(list_entry_words(words, from, to), from, to) == list_entry_words(words, from, to),
        !list_entry_changes(list_entry_words(words, from, to), from, to),
        forall|i: int|
            0 <= i < list_entry_words(words, from, to).len() ==> is_word(
                #[trigger] list_entry_words(words, from, to)[i],
            ) && !list_entry_words(words, from, to)[i].contains('#'),
        list_entry_words(words, from, to).len() == words.len(),
{
    reveal_strlit("-updates");
    reveal_strlit("-security");
    let w2 = list_entry_words(words, from, to);
    if words.len() >= 3 && (words[0] == "deb"@ || words[0] == "deb-src"@) {
        law_list_suite_moved(words, from, to);
        assert(w2[0] == words[0]);
        match map_suite(words[2], from, to) {
            Some(sfx) => {
                assert(sfx == to || sfx == to + "-updates"@ || sfx == to + "-security"@);
                assert(is_word(sfx) && !sfx.contains('#')) by {
                    assert forall|i: int| 0 <= i < sfx.len() implies !is_ws(#[trigger] sfx[i]) && sfx[i] != '#' by {
                        if i < to.len() {
                            assert(sfx[i] == to[i]);
                            assert(to.contains(to[i]));
                        }
                    }
                    if sfx.contains('#') {
                        let j = choose|j: int| 0 <= j < sfx.len() && sfx[j] == '#';
                        assert(false);
                    }
                }
                assert forall|i: int| 0 <= i < w2.len() implies is_word(#[trigger] w2[i])
                    && !w2[i].contains('#') by {
                    if i != 2 {
                        assert(w2[i] == words[i]);
                    }
                }
            },
            None => {},
        }
        law_list_suite_moved(w2, from, to);
    }
}

/// The pieces of `split_once(line, '#')`: text with no `#` before, the rest after.
proof fn lemma_split_hash(line: Seq<char>)
    ensures
        split_once(line, '#') matches Some((a, b)) ==> !a.contains('#') && line == a + "#"@ + b,
        split_once(line, '#') is None ==> !line.contains('#'),
{
    reveal_strlit("#");
    crate::text::lemma_first_index_bounds(line, '#');
    let k = crate::text::first_index(line, '#');
    if k < line.len() {
        let a = line.take(k);
        assert(line =~= a + "#"@ + line.skip(k + 1));
        if a.contains('#') {
            let j = choose|j: int| 0 <= j < a.len() && a[j] == '#';
            assert(line[j] == '#');
            assert(false);
        }
    } else if line.contains('#') {
        let j = choose|j: int| 0 <= j < line.len() && line[j] == '#';
        assert(false);
    }
}

proof fn lemma_list_line_settled(l: Seq<char>, from: Seq<char>, to: Seq<char>)
    requires
        fresh_target(from, to),
        is_word(to),
        !to.contains('#'),
    ensures
        list_line(list_line(l, from, to).0, from, to) == (list_line(l, from, to).0, false),
        !l.contains('\n') ==> !list_line(l, from, to).0.contains('\n'),
        no_cr_end(l) ==> no_cr_end(list_line(l, from, to).0),
        l.len() > 0 ==> list_line(l, from, to).0.len() > 0,
{
    reveal_strlit("#");
    reveal_strlit(" ");
    let t = trim_start(l);
    if !(t.len() == 0 || t[0] == '#') {
        crate::text::lemma_trim_start_len(l);
        let off = l.len() - t.len();
        assert(l[off] == t[0]);
        lemma_split_hash(l);
        let main = match split_once(l, '#') {
            Some(p) => p.0,
            None => l,
        };
        assert(!main.contains('#'));
        crate::text::lemma_first_index_bounds(l, '#');
        let k = crate::text::first_index(l, '#');
        if k < off {
            lemma_trim_start_prefix_ws(l, k);
            assert(l[k] == '#');
            assert(false);
        }
        assert(k != off);
        assert(off < main.len());
        assert(main[off] == t[0]);
        assert(!is_ws(main[off]));
        lemma_split_ws_words(main, '#');
        lemma_split_ws_words(main, '\n');
        let words = split_ws(main);
        lemma_split_ws_first(main, off);
        lemma_entry_words(words, from, to);
        let w2 = list_entry_words(words, from, to);
        let rebuilt = join(w2, " "@);
        lemma_joined_words_shape(w2);
        assert(w2.len() > 0);
        assert(rebuilt.len() > 0);
        assert(rebuilt[0] == ' ' || !is_ws(rebuilt[0]));
        assert(!rebuilt.contains('#')) by {
            if rebuilt.contains('#') {
                let j = choose|j: int| 0 <= j < rebuilt.len() && rebuilt[j] == '#';
                lemma_join_words_avoid(w2, '#');
                assert(false);
            }
        }
        let out = list_line(l, from, to).0;
        assert(rebuilt[0] != ' ') by {
            lemma_join_first(w2);
        }
        assert(out[0] == rebuilt[0]);
        assert(trim_start(out) == out);
        match split_once(l, '#') {
            Some(p) => {
                let c = p.1;
                assert(out == rebuilt + " "@ + "#"@ + c);
                assert(split_once(out, '#') == Some((rebuilt + " "@, c))) by {
                    lemma_first_hash_at(rebuilt + " "@, c);
                    assert(out =~= (rebuilt + " "@) + "#"@ + c);
                }
                lemma_split_joined_words(w2, " "@);
                assert(out[0] != '#') by {
                    assert(rebuilt.contains(rebuilt[0]));
                }
                assert(split_ws(rebuilt + " "@) == w2);
                assert(list_entry_words(w2, from, to) == w2);
                assert(list_line(out, from, to) == (out, false));
                if !l.contains('\n') {
                    assert(!c.contains('\n')) by {
                        if c.contains('\n') {
                            let j = choose|j: int| 0 <= j < c.len() && c[j] == '\n';
                            assert(l[(p.0.len() + 1 + j) as int] == '\n');
                            assert(false);
                        }
                    }
                    lemma_join_words_avoid(w2, '\n');
                    lemma_no_char_concat(rebuilt + " "@, "#"@, '\n');
                    lemma_no_char_concat(rebuilt, " "@, '\n');
                    lemma_no_char_concat(rebuilt + " "@ + "#"@, c, '\n');
                }
                if c.len() > 0 {
                    assert(out.last() == c.last());
                    assert(l.last() == c.last());
                } else {
                    assert(out.last() == '#');
                }
            },
            None => {
                assert(out == rebuilt);
                lemma_split_joined_words(w2, Seq::<char>::empty());
                assert(rebuilt + Seq::<char>::empty() =~= rebuilt);
                assert(out[0] != '#') by {
                    assert(rebuilt.contains(rebuilt[0]));
                }
                assert(split_once(out, '#') is None) by {
                    crate::text::lemma_first_index_bounds(out, '#');
                    if crate::text::first_index(out, '#') < out.len() {
                        assert(rebuilt.contains(rebuilt[crate::text::first_index(out, '#')]));
                    }
                }
                assert(split_ws(rebuilt) == w2);
                assert(list_entry_words(w2, from, to) == w2);
                assert(list_line(out, from, to) == (out, false));
                lemma_join_words_avoid(w2, '\n');
            },
        }
    }
}


proof fn lemma_list_second_pass(ls: Seq<Seq<char>>, from: Seq<char>, to: Seq<char>)
    requires
        fresh_target(from, to),
        is_word(to),
        !to.contains('#'),
    ensures
        list_lines(list_lines(ls, from, to).0, from, to) == (list_lines(ls, from, to).0, 0nat),
        list_lines(ls, from, to).0.len() == ls.len(),
        forall|i: int|
            0 <= i < ls.len() ==> #[trigger] list_lines(ls, from, to).0[i] == list_line(
                ls[i],
                from,
                to,
            ).0,
    decreases ls.len(),
{
    if ls.len() > 0 {
        lemma_list_second_pass(ls.drop_last(), from, to);
        lemma_list_line_settled(ls.last(), from, to);
        let out = list_lines(ls, from, to).0;
        assert(out.drop_last() =~= list_lines(ls.drop_last(), from, to).0);
        assert forall|i: int| 0 <= i < ls.len() implies #[trigger] list_lines(ls, from, to).0[i]
            == list_line(ls[i], from, to).0 by {
            if i < ls.len() - 1 {
                assert(out[i] == list_lines(ls.drop_last(), from, to).0[i]);
                assert(ls.drop_last()[i] == ls[i]);
            }
        }
    }
}

/// Moving the suites of `sources.list` twice moves nothing the second time
/// and leaves the file as the first time wrote it, when the target is a
/// single word without `#` whose own suites do not move (and the file has
/// no two carriage returns before a line feed, which line splitting folds).
pub proof fn law_list_rewrite_is_idempotent(content: Seq<char>, from: Seq<char>, to: Seq<char>)
    requires
        fresh_target(from, to),
        is_word(to),
        !to.contains('#'),
        !contains(content, "\r\r\n"@),
    ensures
        rewrite_list_spec(rewrite_list_spec(content, from, to).0, from, to) == (
            rewrite_list_spec(content, from, to).0,
            0nat,
        ),
{
    let ls = lines(content);
    let out = list_lines(ls, from, to).0;
    let nl = ends_with_newline(content);
    lemma_lines_shape(content);
    lemma_list_second_pass(ls, from, to);
    assert forall|i: int| 0 <= i < out.len() implies !(#[trigger] out[i]).contains('\n') by {
        lemma_list_line_settled(ls[i], from, to);
    }
    assert forall|i: int| 0 <= i < out.len() && (i < out.len() - 1 || nl) implies no_cr_end(
        #[trigger] out[i],
    ) by {
        lemma_list_line_settled(ls[i], from, to);
    }
    if !nl && out.len() > 0 {
        lemma_list_line_settled(ls[ls.len() - 1], from, to);
        assert(out.last() == out[out.len() - 1]);
    }
    lemma_lines_of_joined(out, nl);
    let text1 = rebuild_text(content, out);
    assert(lines(text1) == out);
    if !nl && out.len() > 0 {
        lemma_join_last(out, "\n"@);
        assert(text1 =~= join(out, "\n"@));
        assert(!out.last().contains('\n'));
        assert(text1.last() != '\n');
    }
    if !nl && out.len() == 0 {
        assert(text1 =~= Seq::<char>::empty());
    }
    if nl {
        reveal_strlit("\n");
        assert(text1.last() == '\n');
    }
    assert(ends_with_newline(text1) == nl);
}

} // verus!
