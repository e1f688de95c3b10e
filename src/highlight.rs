//! The span extractor, the name-to-style table, and the line highlighter
//! that joins them to the renderer.
use vstd::prelude::*;
use vstd::string::StrSliceExecFns;
use regex::Regex;
use crate::pattern::{bounds_within, capture_bounds, compile, group_names, regex_accepts};
use crate::render::{render, spec_render, Span};
use crate::style::{
    default_style, parse_style, spec_default_style, spec_parse_style, view_result, ConfigError,
    Fault, Style,
};
use crate::text::chars_of;

verus! {

/// The first position at or after `i` where `s` holds `c`, or `s.len()`.
pub open spec fn find_from(s: Seq<char>, c: char, i: int) -> int
    decreases s.len() - i,
{
    if i >= s.len() {
        s.len() as int
    } else if s[i] == c {
        i
    } else {
        find_from(s, c, i + 1)
    }
}

proof fn lemma_find_from_bounds(s: Seq<char>, c: char, i: int)
    requires
        0 <= i <= s.len(),
    ensures
        i <= find_from(s, c, i) <= s.len(),
    decreases s.len() - i,
{
    if i < s.len() && s[i] != c {
        lemma_find_from_bounds(s, c, i + 1);
    }
}

fn find_char(s: &Vec<char>, c: char, i: usize) -> (r: usize)
    requires
        i <= s@.len(),
    ensures
        r as int == find_from(s@, c, i as int),
{
    let mut k = i;
    while k < s.len()
        invariant
            i <= k <= s@.len(),
            find_from(s@, c, i as int) == find_from(s@, c, k as int),
        decreases s@.len() - k,
    {
        if s[k] == c {
            return k;
        }
        k = k + 1;
    }
    k
}

/// A `key=style-list` assignment: the key runs to the first `=`, the style
/// list from there to the next `=` or the end. Without `=` it is malformed.
pub open spec fn spec_assignment(a: Seq<char>) -> Result<(Seq<char>, Style), Fault> {
    let i = find_from(a, '=', 0);
    if i >= a.len() {
        Err(Fault::MalformedAssignment(a))
    } else {
        let j = find_from(a, '=', i + 1);
        match spec_parse_style(a.subrange(i + 1, j)) {
            Ok(st) => Ok((a.subrange(0, i), st)),
            Err(e) => Err(e),
        }
    }
}

/// The mathematical form of a style table.
pub open spec fn table_view(t: Seq<(String, Style)>) -> Seq<(Seq<char>, Style)> {
    t.map_values(|p: (String, Style)| (p.0@, p.1))
}

/// The table that a list of assignments denotes; the first malformed one
/// decides the error.
pub open spec fn spec_table(items: Seq<String>) -> Result<Seq<(Seq<char>, Style)>, Fault>
    decreases items.len(),
{
    if items.len() == 0 {
        Ok(Seq::empty())
    } else {
        match spec_table(items.drop_last()) {
            Ok(t) => match spec_assignment(items.last()@) {
                Ok(p) => Ok(t.push(p)),
                Err(e) => Err(e),
            },
            Err(e) => Err(e),
        }
    }
}

proof fn lemma_table_error_persists(items: Seq<String>, k: int)
    requires
        0 <= k <= items.len(),
        spec_table(items.take(k)) is Err,
    ensures
        spec_table(items) == spec_table(items.take(k)),
    decreases items.len() - k,
{
    if k < items.len() {
        assert(items.take(k + 1).drop_last() =~= items.take(k));
        lemma_table_error_persists(items, k + 1);
    } else {
        assert(items.take(k) =~= items);
    }
}

/// Parses one `key=style-list` assignment.
pub fn parse_assignment(a: &str) -> (r: Result<(String, Style), ConfigError>)
    ensures
        match r {
            Ok(p) => spec_assignment(a@) == Ok::<(Seq<char>, Style), Fault>((p.0@, p.1)),
            Err(e) => spec_assignment(a@) == Err::<(Seq<char>, Style), Fault>(e@),
        },
{
    let chars = chars_of(a);
    let i = find_char(&chars, '=', 0);
    if i >= chars.len() {
        return Err(ConfigError::MalformedAssignment(a.to_owned()));
    }
    let j = find_char(&chars, '=', i + 1);
    proof {
        lemma_find_from_bounds(a@, '=', i + 1);
    }
    match parse_style(a.substring_char(i + 1, j)) {
        Ok(st) => Ok((a.substring_char(0, i).to_owned(), st)),
        Err(e) => Err(e),
    }
}

/// Parses the `key=style-list` assignments into a table of styles by group name.
pub fn parse_styles(styles: &Vec<String>) -> (r: Result<Vec<(String, Style)>, ConfigError>)
    ensures
        match r {
            Ok(t) => spec_table(styles@) == Ok::<Seq<(Seq<char>, Style)>, Fault>(table_view(t@)),
            Err(e) => spec_table(styles@) == Err::<Seq<(Seq<char>, Style)>, Fault>(e@),
        },
{
    let mut t: Vec<(String, Style)> = Vec::new();
    let mut i: usize = 0;
    assert(styles@.take(0) =~= Seq::<String>::empty());
    assert(table_view(t@) =~= Seq::<(Seq<char>, Style)>::empty());
    while i < styles.len()
        invariant
            i <= styles@.len(),
            spec_table(styles@.take(i as int)) == Ok::<Seq<(Seq<char>, Style)>, Fault>(
                table_view(t@),
            ),
        decreases styles@.len() - i,
    {
        assert(styles@.take(i + 1).drop_last() =~= styles@.take(i as int));
        match parse_assignment(styles[i].as_str()) {
            Ok(p) => {
                let ghost before = t@;
                t.push(p);
                assert(table_view(t@) =~= table_view(before).push((p.0@, p.1)));
            },
            Err(e) => {
                proof {
                    lemma_table_error_persists(styles@, i + 1);
                }
                return Err(e);
            },
        }
        i = i + 1;
    }
    assert(styles@.take(styles@.len() as int) =~= styles@);
    Ok(t)
}

/// The style that `table` gives `name`: the last entry for it wins.
pub open spec fn lookup(table: Seq<(Seq<char>, Style)>, name: Seq<char>) -> Option<Style>
    decreases table.len(),
{
    if table.len() == 0 {
        None
    } else if table.last().0 == name {
        Some(table.last().1)
    } else {
        lookup(table.drop_last(), name)
    }
}

fn lookup_style(table: &Vec<(String, Style)>, name: &String) -> (r: Option<Style>)
    ensures
        r == lookup(table_view(table@), name@),
{
    let mut j = table.len();
    assert(table_view(table@).take(j as int) =~= table_view(table@));
    while j > 0
        invariant
            j <= table@.len(),
            lookup(table_view(table@).take(j as int), name@) == lookup(table_view(table@), name@),
        decreases j,
    {
        let ghost v = table_view(table@).take(j as int);
        assert(v.drop_last() =~= table_view(table@).take(j - 1));
        if table[j - 1].0 == *name {
            return Some(table[j - 1].1);
        }
        j = j - 1;
    }
    None
}

/// The style of capture group `i`: the table's style for the group's name,
/// else the default palette's style for its position.
pub open spec fn group_style(
    i: int,
    names: Seq<Option<String>>,
    table: Seq<(Seq<char>, Style)>,
) -> Style {
    let name = if 0 <= i < names.len() {
        names[i]
    } else {
        None
    };
    match name {
        Some(n) => match lookup(table, n@) {
            Some(st) => st,
            None => spec_default_style(i),
        },
        None => spec_default_style(i),
    }
}

fn style_of_group(i: usize, names: &Vec<Option<String>>, table: &Vec<(String, Style)>) -> (r:
    Style)
    ensures
        r == group_style(i as int, names@, table_view(table@)),
{
    if i < names.len() {
        match &names[i] {
            Some(n) => match lookup_style(table, n) {
                Some(st) => st,
                None => default_style(i),
            },
            None => default_style(i),
        }
    } else {
        default_style(i)
    }
}

/// The spans of groups 1 to `k - 1` of one match, in group order.
pub open spec fn match_spans(
    m: Seq<Option<(usize, usize)>>,
    k: int,
    names: Seq<Option<String>>,
    table: Seq<(Seq<char>, Style)>,
) -> Seq<Span>
    decreases k,
{
    if k <= 1 {
        Seq::empty()
    } else {
        match_spans(m, k - 1, names, table) + match m[k - 1] {
            Some(g) => seq![Span { start: g.0, end: g.1, style: group_style(k - 1, names, table) }],
            None => Seq::empty(),
        }
    }
}

/// The spans of all matches, in match order and within a match in group
/// order; group 0, the whole match, is not styled.
pub open spec fn spec_spans(
    caps: Seq<Vec<Option<(usize, usize)>>>,
    names: Seq<Option<String>>,
    table: Seq<(Seq<char>, Style)>,
) -> Seq<Span>
    decreases caps.len(),
{
    if caps.len() == 0 {
        Seq::empty()
    } else {
        spec_spans(caps.drop_last(), names, table) + match_spans(
            caps.last()@,
            caps.last()@.len() as int,
            names,
            table,
        )
    }
}

/// Builds the spans of a line from its matches: `caps` holds, for each match,
/// each group (the whole match first) as absent or as `(start, end)`.
pub fn spans_from_captures(
    caps: &Vec<Vec<Option<(usize, usize)>>>,
    names: &Vec<Option<String>>,
    table: &Vec<(String, Style)>,
) -> (r: Vec<Span>)
    ensures
        r@ == spec_spans(caps@, names@, table_view(table@)),
{
    let ghost tv = table_view(table@);
    let mut out: Vec<Span> = Vec::new();
    let mut m: usize = 0;
    while m < caps.len()
        invariant
            m <= caps@.len(),
            tv == table_view(table@),
            out@ == spec_spans(caps@.take(m as int), names@, tv),
        decreases caps@.len() - m,
    {
        let groups = &caps[m];
        let ghost base = out@;
        let mut g: usize = 1;
        if groups.len() == 0 {
            g = 0;
        }
        while g < groups.len()
            invariant
                g <= groups@.len(),
                groups.len() > 0 ==> g >= 1,
                tv == table_view(table@),
                out@ == base + match_spans(groups@, g as int, names@, tv),
            decreases groups@.len() - g,
        {
            match groups[g] {
                Some((s, e)) => {
                    let st = style_of_group(g, names, table);
                    out.push(Span { start: s, end: e, style: st });
                },
                None => {},
            }
            proof {
                assert(match_spans(groups@, g + 1, names@, tv) == match_spans(groups@, g as int, names@, tv) + match groups@[g as int] {
                    Some(x) => seq![Span { start: x.0, end: x.1, style: group_style(g as int, names@, tv) }],
                    None => Seq::<Span>::empty(),
                });
            }
            g = g + 1;
        }
        proof {
            assert(caps@.take(m + 1).drop_last() =~= caps@.take(m as int));
            if groups@.len() == 0 {
                assert(match_spans(groups@, 0, names@, tv) =~= Seq::<Span>::empty());
            }
        }
        m = m + 1;
    }
    assert(caps@.take(caps@.len() as int) =~= caps@);
    out
}

/// Every group of every match lies within a line of `n` characters, its
/// start no later than its end.
pub open spec fn groups_within(caps: Seq<Vec<Option<(usize, usize)>>>, n: int) -> bool {
    forall|m: int, g: int|
        0 <= m < caps.len() && 0 <= g < caps[m]@.len() ==> match #[trigger] caps[m]@[g] {
            Some(x) => x.0 <= x.1 <= n,
            None => true,
        }
}

/// Turns group bounds given as prefixes of the line into character offsets.
fn char_bounds(raw: &Vec<Vec<Option<(&str, &str)>>>, line: &str) -> (r: Vec<
    Vec<Option<(usize, usize)>>,
>)
    requires
        forall|m: int, g: int|
            0 <= m < raw@.len() && 0 <= g < raw@[m]@.len() ==> bounds_within(
                #[trigger] raw@[m]@[g],
                line@,
            ),
    ensures
        groups_within(r@, line@.len() as int),
{
    let mut r: Vec<Vec<Option<(usize, usize)>>> = Vec::new();
    let mut m: usize = 0;
    while m < raw.len()
        invariant
            m <= raw@.len(),
            r@.len() == m,
            forall|m: int, g: int|
                0 <= m < raw@.len() && 0 <= g < raw@[m]@.len() ==> bounds_within(
                    #[trigger] raw@[m]@[g],
                    line@,
                ),
            groups_within(r@, line@.len() as int),
        decreases raw@.len() - m,
    {
        let groups = &raw[m];
        let mut row: Vec<Option<(usize, usize)>> = Vec::new();
        let mut g: usize = 0;
        while g < groups.len()
            invariant
                g <= groups@.len(),
                row@.len() == g,
                groups == raw@[m as int],
                m < raw@.len(),
                forall|m: int, g: int|
                    0 <= m < raw@.len() && 0 <= g < raw@[m]@.len() ==> bounds_within(
                        #[trigger] raw@[m]@[g],
                        line@,
                    ),
                forall|k: int|
                    0 <= k < g ==> match #[trigger] row@[k] {
                        Some(x) => x.0 <= x.1 <= line@.len(),
                        None => true,
                    },
            decreases groups@.len() - g,
        {
            let item = match groups[g] {
                Some((a, b)) => {
                    assert(bounds_within(raw@[m as int]@[g as int], line@));
                    Some((a.unicode_len(), b.unicode_len()))
                },
                None => None,
            };
            row.push(item);
            g = g + 1;
        }
        let ghost before = r@;
        r.push(row);
        assert forall|i: int, k: int|
            0 <= i < r@.len() && 0 <= k < r@[i]@.len() implies match #[trigger] r@[i]@[k] {
            Some(x) => x.0 <= x.1 <= line@.len(),
            None => true,
        } by {
            if i < m {
                assert(r@[i] == before[i]);
            }
        }
        m = m + 1;
    }
    r
}

/// A compiled pattern with its group names and its table of styles by name.
pub struct Highlighter {
    regex: Regex,
    names: Vec<Option<String>>,
    table: Vec<(String, Style)>,
}

impl Highlighter {
    /// The name of each capture group, the whole match first.
    pub closed spec fn group_names(&self) -> Seq<Option<String>> {
        self.names@
    }

    /// The configured styles by group name.
    pub closed spec fn styles(&self) -> Seq<(Seq<char>, Style)> {
        table_view(self.table@)
    }

    /// Compiles `pattern` and parses the `key=style-list` assignments in
    /// `styles`. An invalid pattern is reported first, then the first bad
    /// assignment.
    pub fn new(pattern: &str, styles: &Vec<String>) -> (r: Result<Highlighter, ConfigError>)
        ensures
            match r {
                Ok(h) => regex_accepts(pattern@) && spec_table(styles@) == Ok::<
                    Seq<(Seq<char>, Style)>,
                    Fault,
                >(h.styles()),
                Err(e) => if !regex_accepts(pattern@) {
                    e@ == Fault::InvalidRegex(pattern@)
                } else {
                    spec_table(styles@) == Err::<Seq<(Seq<char>, Style)>, Fault>(e@)
                },
            },
    {
        let regex = match compile(pattern) {
            Some(re) => re,
            None => return Err(ConfigError::InvalidRegex(pattern.to_owned())),
        };
        let table = match parse_styles(styles) {
            Ok(t) => t,
            Err(e) => return Err(e),
        };
        let names = group_names(&regex);
        Ok(Highlighter { regex, names, table })
    }

    /// Highlights one line: whatever matches the engine reports, within the
    /// line, the result is the rendering of their spans.
    pub fn highlight_line(&self, line: &str) -> (r: String)
        ensures
            exists|caps: Seq<Vec<Option<(usize, usize)>>>|
                groups_within(caps, line@.len() as int) && r@ == spec_render(
                    line@,
                    #[trigger] spec_spans(caps, self.group_names(), self.styles()),
                ),
    {
        let raw = capture_bounds(&self.regex, line);
        let caps = char_bounds(&raw, line);
        let spans = spans_from_captures(&caps, &self.names, &self.table);
        let r = render(line, &spans);
        assert(groups_within(caps@, line@.len() as int));
        assert(r@ == spec_render(line@, spec_spans(caps@, self.group_names(), self.styles())));
        r
    }
}

} // verus!
