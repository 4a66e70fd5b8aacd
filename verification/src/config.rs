//! The visualisation driver's configuration: every switch of its command
//! line but the line thickness, the obstacle list, the solver each polygon
//! gets, and the title that names the chosen algorithm.
use vstd::prelude::*;
use vstd::string::*;

use crate::cli::{
    axis_solver_choice, axis_solver_name, axis_solver_named, default_obstacle_flags, flag_value,
    flag_value_of, has_flag, lemma_absent_flag_value, lemma_appended_flag_value,
    mask_backend_name, parse_axis_solver, parse_point_solver, point_solver_choice, simd_status, str_is,
    views, AxisCliSolver, MaskBackend, ObstacleFlags, PointCliSolver,
};

verus! {

/// Whether `c` is an ASCII decimal digit.
pub open spec fn is_digit(c: char) -> bool {
    '0' <= c && c <= '9'
}

/// The number written by the decimal digits `d`.
pub open spec fn digits_value(d: Seq<char>) -> nat
    decreases d.len(),
{
    if d.len() == 0 {
        0
    } else {
        digits_value(d.drop_last()) * 10 + ((d.last() as u32 - '0' as u32) as nat)
    }
}

/// `s` without one leading `+`, where it has one.
pub open spec fn without_plus(s: Seq<char>) -> Seq<char> {
    if s.len() > 0 && s[0] == '+' {
        s.subrange(1, s.len() as int)
    } else {
        s
    }
}

/// Whether every character of `d` is a decimal digit.
pub open spec fn all_digits(d: Seq<char>) -> bool {
    forall|i: int| 0 <= i < d.len() ==> is_digit(#[trigger] d[i])
}

/// What `str::parse::<usize>` gives for `s`: an optional `+` followed by at
/// least one decimal digit and nothing else, whose value fits in `usize`.
pub open spec fn usize_text_value(s: Seq<char>) -> Option<usize> {
    let d = without_plus(s);
    if d.len() > 0 && all_digits(d) && digits_value(d) <= usize::MAX {
        Some(digits_value(d) as usize)
    } else {
        None
    }
}

proof fn lemma_digits_prefix_le(d: Seq<char>, k: int)
    requires
        0 <= k <= d.len(),
    ensures
        digits_value(d.take(k)) <= digits_value(d),
    decreases d.len(),
{
    if k < d.len() {
        lemma_digits_prefix_le(d.drop_last(), k);
        assert(d.drop_last().take(k) =~= d.take(k));
    } else {
        assert(d.take(k) =~= d);
    }
}

/// The value of a decimal `usize` text, as `str::parse::<usize>` reads it.
pub fn parse_usize(s: &str) -> (r: Option<usize>)
    ensures
        r == usize_text_value(s@),
{
    let n = s.unicode_len();
    let mut start: usize = 0;
    if n > 0 && s.get_char(0) == '+' {
        start = 1;
    }
    let ghost d = without_plus(s@);
    assert(d =~= s@.subrange(start as int, n as int));
    if start == n {
        return None;
    }
    let mut acc: usize = 0;
    let mut i: usize = start;
    while i < n
        invariant
            start <= i <= n,
            n == s@.len(),
            d == without_plus(s@),
            d =~= s@.subrange(start as int, n as int),
            forall|k: int| 0 <= k < i - start ==> is_digit(#[trigger] d[k]),
            acc as nat == digits_value(d.take(i - start)),
        decreases n - i,
    {
        let c = s.get_char(i);
        if !('0' <= c && c <= '9') {
            proof {
                let k = i - start;
                assert(d[k] == c);
                assert(!is_digit(d[k]));
            }
            return None;
        }
        let digit = (c as u32 - '0' as u32) as usize;
        proof {
            let t = d.take(i + 1 - start);
            assert(t.drop_last() =~= d.take(i - start));
            assert(t.last() == c);
        }
        let next = match acc.checked_mul(10) {
            Some(m) => m.checked_add(digit),
            None => None,
        };
        match next {
            Some(v) => {
                acc = v;
            },
            None => {
                proof {
                    assert(digits_value(d.take(i + 1 - start)) > usize::MAX);
                    lemma_digits_prefix_le(d, i + 1 - start);
                }
                return None;
            },
        }
        i = i + 1;
    }
    assert(d.take(n - start) =~= d);
    Some(acc)
}

/// What `str::to_lowercase` gives for a text.
pub uninterp spec fn lowercase_of(s: Seq<char>) -> Seq<char>;

/// The ASCII lower-case mapping of one character.
pub open spec fn ascii_lower(c: char) -> char {
    if 'A' <= c && c <= 'Z' {
        ((c as u32) + 32) as char
    } else {
        c
    }
}

/// Whether every character of `s` is ASCII.
pub open spec fn all_ascii(s: Seq<char>) -> bool {
    forall|i: int| 0 <= i < s.len() ==> (#[trigger] s[i] as u32) < 128
}

/// Calls `str::to_lowercase` (the Unicode lower-case mapping of the text).
/// The contract names its result and states its ASCII part: on an ASCII
/// text it lower-cases `A`..`Z` and keeps every other character; the
/// mapping of other characters is left unsaid.
#[verifier::external_body]
fn lowercase(s: &str) -> (r: String)
    ensures
        r@ == lowercase_of(s@),
        all_ascii(s@) ==> r@ == s@.map_values(|c: char| ascii_lower(c)),
{
    s.to_lowercase()
}

/// Whether `c` has the Unicode White_Space property, which `str::trim`
/// removes.
pub open spec fn is_white_space(c: char) -> bool {
    ('\u{9}' <= c && c <= '\u{d}') || c == ' ' || c == '\u{85}' || c == '\u{a0}' || c
        == '\u{1680}' || ('\u{2000}' <= c && c <= '\u{200a}') || c == '\u{2028}' || c == '\u{2029}'
        || c == '\u{202f}' || c == '\u{205f}' || c == '\u{3000}'
}

/// `s` without its leading white space.
pub open spec fn trim_start_of(s: Seq<char>) -> Seq<char>
    decreases s.len(),
{
    if s.len() > 0 && is_white_space(s[0]) {
        trim_start_of(s.drop_first())
    } else {
        s
    }
}

/// `s` without its trailing white space.
pub open spec fn trim_end_of(s: Seq<char>) -> Seq<char>
    decreases s.len(),
{
    if s.len() > 0 && is_white_space(s.last()) {
        trim_end_of(s.drop_last())
    } else {
        s
    }
}

/// What `str::trim` gives: the text without leading and trailing white
/// space.
pub open spec fn trim_of(s: Seq<char>) -> Seq<char> {
    trim_end_of(trim_start_of(s))
}

/// Whether `c` is white space in the sense of `str::trim`.
fn is_white_space_char(c: char) -> (b: bool)
    ensures
        b == is_white_space(c),
{
    ('\u{9}' <= c && c <= '\u{d}') || c == ' ' || c == '\u{85}' || c == '\u{a0}' || c
        == '\u{1680}' || ('\u{2000}' <= c && c <= '\u{200a}') || c == '\u{2028}' || c == '\u{2029}'
        || c == '\u{202f}' || c == '\u{205f}' || c == '\u{3000}'
}

proof fn lemma_trim_start_at(s: Seq<char>, i: int)
    requires
        0 <= i <= s.len(),
        forall|k: int| 0 <= k < i ==> is_white_space(#[trigger] s[k]),
        i == s.len() || !is_white_space(s[i]),
    ensures
        trim_start_of(s) == s.subrange(i, s.len() as int),
    decreases i,
{
    if i == 0 {
        assert(s.subrange(0, s.len() as int) =~= s);
    } else {
        let t = s.drop_first();
        assert forall|k: int| 0 <= k < i - 1 implies is_white_space(#[trigger] t[k]) by {
            assert(t[k] == s[k + 1]);
        }
        lemma_trim_start_at(t, i - 1);
        assert(t.subrange(i - 1, t.len() as int) =~= s.subrange(i, s.len() as int));
    }
}

proof fn lemma_trim_end_at(s: Seq<char>, j: int)
    requires
        0 <= j <= s.len(),
        forall|k: int| j <= k < s.len() ==> is_white_space(#[trigger] s[k]),
        j == 0 || !is_white_space(s[j - 1]),
    ensures
        trim_end_of(s) == s.subrange(0, j),
    decreases s.len() - j,
{
    if j == s.len() {
        assert(s.subrange(0, j) =~= s);
    } else {
        let t = s.drop_last();
        lemma_trim_end_at(t, j);
        assert(t.subrange(0, j) =~= s.subrange(0, j));
    }
}

/// The text without leading and trailing white space, as `str::trim`
/// gives it.
fn trim_spaces(s: &str) -> (r: &str)
    ensures
        r@ == trim_of(s@),
{
    let n = s.unicode_len();
    let mut start: usize = 0;
    while start < n && is_white_space_char(s.get_char(start))
        invariant
            n == s@.len(),
            start <= n,
            forall|k: int| 0 <= k < start ==> is_white_space(#[trigger] s@[k]),
        decreases n - start,
    {
        start = start + 1;
    }
    proof {
        lemma_trim_start_at(s@, start as int);
    }
    let mut end: usize = n;
    while end > start && is_white_space_char(s.get_char(end - 1))
        invariant
            n == s@.len(),
            start <= end <= n,
            forall|k: int| end <= k < n ==> is_white_space(#[trigger] s@[k]),
        decreases end - start,
    {
        end = end - 1;
    }
    proof {
        let t = s@.subrange(start as int, n as int);
        assert forall|k: int| end - start <= k < t.len() implies is_white_space(#[trigger] t[k]) by {
            assert(t[k] == s@[start + k]);
        }
        lemma_trim_end_at(t, end - start);
        assert(t.subrange(0, end - start) =~= s@.subrange(start as int, end as int));
    }
    s.substring_char(start, end)
}

/// The pieces of `s` between its commas, as `str::split(',')` yields them
/// (an empty text is one empty piece).
pub open spec fn comma_pieces(s: Seq<char>) -> Seq<Seq<char>>
    decreases s.len(),
{
    if s.len() == 0 {
        seq![Seq::<char>::empty()]
    } else {
        let p = comma_pieces(s.drop_last());
        if s.last() == ',' {
            p.push(Seq::<char>::empty())
        } else {
            p.update(p.len() - 1, p.last().push(s.last()))
        }
    }
}

/// The lower-cased entries of a comma-separated list, each trimmed.
pub open spec fn list_tokens(v: Seq<char>) -> Seq<Seq<char>> {
    comma_pieces(lowercase_of(v)).map_values(|p: Seq<char>| trim_of(p))
}

/// The entries of a comma-separated list, lower-cased and trimmed.
pub fn list_entries(value: &str) -> (r: Vec<String>)
    ensures
        views(r@) == list_tokens(value@),
{
    let low = lowercase(value);
    let s = low.as_str();
    let n = s.unicode_len();
    let mut toks: Vec<String> = Vec::new();
    let mut start: usize = 0;
    let mut i: usize = 0;
    let ghost mut pieces: Seq<Seq<char>> = Seq::empty();
    assert(s@.take(0) =~= Seq::<char>::empty());
    assert(s@.subrange(0, 0) =~= Seq::<char>::empty());
    assert(views(toks@) =~= pieces.map_values(|p: Seq<char>| trim_of(p)));
    while i < n
        invariant
            start <= i <= n,
            n == s@.len(),
            comma_pieces(s@.take(i as int)) == pieces.push(s@.subrange(start as int, i as int)),
            views(toks@) == pieces.map_values(|p: Seq<char>| trim_of(p)),
        decreases n - i,
    {
        let c = s.get_char(i);
        proof {
            assert(s@.take(i + 1).drop_last() =~= s@.take(i as int));
            assert(s@.take(i + 1).last() == c);
        }
        if c == ',' {
            let piece = s.substring_char(start, i);
            let t = trim_spaces(piece);
            let ghost old_toks = toks@;
            toks.push(String::from_str(t));
            proof {
                let f = |p: Seq<char>| trim_of(p);
                assert(views(toks@) =~= views(old_toks).push(t@));
                assert(pieces.push(piece@).map_values(f) =~= pieces.map_values(f).push(f(piece@)));
                pieces = pieces.push(piece@);
                assert(s@.subrange(i + 1, i + 1) =~= Seq::<char>::empty());
            }
            start = i + 1;
        } else {
            proof {
                assert(s@.subrange(start as int, i + 1) =~= s@.subrange(start as int, i as int).push(c));
            }
        }
        i = i + 1;
    }
    let piece = s.substring_char(start, n);
    let t = trim_spaces(piece);
    let ghost old_toks = toks@;
    toks.push(String::from_str(t));
    proof {
        let f = |p: Seq<char>| trim_of(p);
        assert(s@.take(n as int) =~= s@);
        assert(views(toks@) =~= views(old_toks).push(t@));
        assert(pieces.push(piece@).map_values(f) =~= pieces.map_values(f).push(f(piece@)));
    }
    toks
}

/// Whether an `--obstacles` entry turns point obstacles on.
pub open spec fn names_points(t: Seq<char>) -> bool {
    t == "points"@ || t == "point"@ || t == "all"@
}

/// Whether an `--obstacles` entry turns line obstacles on.
pub open spec fn names_lines(t: Seq<char>) -> bool {
    t == "lines"@ || t == "line"@ || t == "all"@
}

/// Whether an `--obstacles` entry turns polygon obstacles on.
pub open spec fn names_polygons(t: Seq<char>) -> bool {
    t == "polygons"@ || t == "polygon"@ || t == "all"@
}

/// Whether an `--obstacles` entry is one the driver knows.
pub open spec fn names_obstacle(t: Seq<char>) -> bool {
    names_points(t) || names_lines(t) || names_polygons(t) || t == "none"@
}

/// Whether some entry turns point obstacles on.
pub open spec fn any_points(ts: Seq<Seq<char>>) -> bool {
    exists|k: int| 0 <= k < ts.len() && names_points(#[trigger] ts[k])
}

/// Whether some entry turns line obstacles on.
pub open spec fn any_lines(ts: Seq<Seq<char>>) -> bool {
    exists|k: int| 0 <= k < ts.len() && names_lines(#[trigger] ts[k])
}

/// Whether some entry turns polygon obstacles on.
pub open spec fn any_polygons(ts: Seq<Seq<char>>) -> bool {
    exists|k: int| 0 <= k < ts.len() && names_polygons(#[trigger] ts[k])
}

/// The entries the driver does not know, in their order.
pub open spec fn unknown_entries(ts: Seq<Seq<char>>) -> Seq<Seq<char>>
    decreases ts.len(),
{
    if ts.len() == 0 {
        Seq::empty()
    } else {
        let u = unknown_entries(ts.drop_last());
        if names_obstacle(ts.last()) {
            u
        } else {
            u.push(ts.last())
        }
    }
}

/// The obstacle selection read from an `--obstacles` list, with what the
/// driver warns about: the entries it ignored, and whether it fell back to
/// points because the list enabled nothing.
#[derive(Debug, Clone)]
pub struct ObstacleChoice {
    pub flags: ObstacleFlags,
    pub unknown: Vec<String>,
    pub defaulted: bool,
}

/// Whether the list entries `ts` enable any obstacle type.
pub open spec fn enables_any(ts: Seq<Seq<char>>) -> bool {
    any_points(ts) || any_lines(ts) || any_polygons(ts)
}

/// The obstacle types that the list entries `ts` select: those they name,
/// or points alone where they name none.
pub open spec fn flags_from_entries(ts: Seq<Seq<char>>) -> ObstacleFlags {
    ObstacleFlags {
        points: any_points(ts) || !enables_any(ts),
        lines: any_lines(ts),
        polygons: any_polygons(ts),
    }
}

/// `r` is the selection that the list entries `ts` make.
pub open spec fn chosen_by(r: ObstacleChoice, ts: Seq<Seq<char>>) -> bool {
    &&& r.flags == flags_from_entries(ts)
    &&& r.defaulted == !enables_any(ts)
    &&& views(r.unknown@) == unknown_entries(ts)
}

/// Obstacle selection made by list entries (already lower-cased and
/// trimmed): `point(s)`, `line(s)`, `polygon(s)`, `all` and `none`; other
/// entries are collected as unknown; a list that enables nothing selects
/// points.
pub fn select_obstacles(tokens: &Vec<String>) -> (r: ObstacleChoice)
    ensures
        chosen_by(r, views(tokens@)),
{
    let ghost ts = views(tokens@);
    let mut points = false;
    let mut lines = false;
    let mut polygons = false;
    let mut unknown: Vec<String> = Vec::new();
    let mut i: usize = 0;
    assert(views(unknown@) =~= unknown_entries(ts.take(0)));
    while i < tokens.len()
        invariant
            ts == views(tokens@),
            0 <= i <= tokens.len(),
            points == exists|k: int| 0 <= k < i && names_points(#[trigger] ts[k]),
            lines == exists|k: int| 0 <= k < i && names_lines(#[trigger] ts[k]),
            polygons == exists|k: int| 0 <= k < i && names_polygons(#[trigger] ts[k]),
            views(unknown@) == unknown_entries(ts.take(i as int)),
        decreases tokens.len() - i,
    {
        let t = &tokens[i];
        let ghost tv = ts[i as int];
        assert(t@ == tv);
        let p = str_is(t, "points") || str_is(t, "point");
        let l = str_is(t, "lines") || str_is(t, "line");
        let g = str_is(t, "polygons") || str_is(t, "polygon");
        let a = str_is(t, "all");
        let z = str_is(t, "none");
        if p || a {
            points = true;
        }
        if l || a {
            lines = true;
        }
        if g || a {
            polygons = true;
        }
        if !(p || l || g || a || z) {
            let ghost old_unknown = unknown@;
            unknown.push(t.clone());
            proof {
                assert(views(unknown@) =~= views(old_unknown).push(tv));
            }
        }
        proof {
            assert(ts.take(i + 1).drop_last() =~= ts.take(i as int));
            assert(ts.take(i + 1).last() == tv);
            assert(names_points(tv) == (p || a));
            assert(names_lines(tv) == (l || a));
            assert(names_polygons(tv) == (g || a));
        }
        i = i + 1;
    }
    proof {
        assert(ts.take(i as int) =~= ts);
    }
    let defaulted = !(points || lines || polygons);
    if defaulted {
        points = true;
    }
    ObstacleChoice { flags: ObstacleFlags { points, lines, polygons }, unknown, defaulted }
}

/// The obstacle types the arguments select: those of the `--obstacles`
/// list, or, without the flag, lines where a lines file is given and
/// points otherwise.
pub open spec fn obstacle_flags_of(args: Seq<Seq<char>>, has_lines_file: bool) -> ObstacleFlags {
    match flag_value_of(args, "--obstacles"@) {
        Some(v) => flags_from_entries(list_tokens(v)),
        None => ObstacleFlags { points: !has_lines_file, lines: has_lines_file, polygons: false },
    }
}

/// `r` is what the driver makes of the arguments' `--obstacles` list: the
/// selection that its entries make, or, without the flag, the default
/// selection with nothing to warn about.
pub open spec fn obstacles_chosen(r: ObstacleChoice, args: Seq<Seq<char>>, has_lines_file: bool) -> bool {
    &&& r.flags == obstacle_flags_of(args, has_lines_file)
    &&& match flag_value_of(args, "--obstacles"@) {
        Some(v) => chosen_by(r, list_tokens(v)),
        None => r.unknown@.len() == 0 && !r.defaulted,
    }
}

/// Parse `--obstacles <types>`, a comma-separated list (case-insensitive,
/// entries trimmed). Default: `points` when no lines file; `lines` when a
/// lines file is given.
pub fn parse_obstacles_flag(args: &Vec<String>, has_lines_file: bool) -> (r: ObstacleChoice)
    ensures
        obstacles_chosen(r, views(args@), has_lines_file),
        r.flags.points || r.flags.lines || r.flags.polygons,
{
    match flag_value(args, "--obstacles") {
        Some(v) => {
            let entries = list_entries(v.as_str());
            select_obstacles(&entries)
        },
        None => {
            ObstacleChoice {
                flags: default_obstacle_flags(has_lines_file),
                unknown: Vec::new(),
                defaulted: false,
            }
        },
    }
}

/// The text of an optional argument.
pub open spec fn opt_text(o: Option<String>) -> Option<Seq<char>> {
    match o {
        Some(s) => Some(s@),
        None => None,
    }
}

/// Every choice of the visualisation driver's command line but the line
/// thickness (a real number, read where the geometry is).
#[derive(Debug, Clone)]
pub struct CliSwitches {
    pub use_mic_compare: bool,
    pub real_only: bool,
    pub use_parallel: bool,
    pub use_sa: bool,
    pub use_bootstrap_seeds: bool,
    pub use_pca_axes: bool,
    pub use_early_stopping: bool,
    pub use_edge_anchored: bool,
    pub use_gradient_expand: bool,
    pub use_ler: bool,
    pub use_approx_oriented: bool,
    pub use_json: bool,
    pub limit: Option<usize>,
    pub file_path: Option<String>,
    pub lines_file_path: Option<String>,
    pub polygons_file_path: Option<String>,
    pub axis_solver: AxisCliSolver,
    pub mask_backend: MaskBackend,
    pub obstacle_flags: ObstacleFlags,
    pub point_solver: PointCliSolver,
}

/// The `--limit` value the arguments give: the number that follows the
/// flag where it reads as one.
pub open spec fn limit_of(args: Seq<Seq<char>>) -> Option<usize> {
    match flag_value_of(args, "--limit"@) {
        Some(v) => usize_text_value(v),
        None => None,
    }
}

impl CliSwitches {
    /// Collect the switches from the arguments. This build has only the CPU
    /// mask builder, whatever `--mask-backend` asks for.
    pub fn from_args(args: &Vec<String>) -> (r: CliSwitches)
        ensures
            r.use_mic_compare == views(args@).contains("--mic-compare"@),
            r.real_only == views(args@).contains("--real-only"@),
            r.use_parallel == views(args@).contains("--parallel"@),
            r.use_sa == views(args@).contains("--sa"@),
            r.use_bootstrap_seeds == views(args@).contains("--bootstrap-seeds"@),
            r.use_pca_axes == views(args@).contains("--pca-axes"@),
            r.use_early_stopping == views(args@).contains("--early-stop"@),
            r.use_edge_anchored == views(args@).contains("--edge-anchored"@),
            r.use_gradient_expand == views(args@).contains("--gradient-expand"@),
            r.use_ler == views(args@).contains("--ler"@),
            r.use_approx_oriented == !views(args@).contains("--baseline"@),
            r.use_json == views(args@).contains("--json"@),
            r.limit == limit_of(views(args@)),
            opt_text(r.file_path) == flag_value_of(views(args@), "--file"@),
            opt_text(r.lines_file_path) == flag_value_of(views(args@), "--lines"@),
            opt_text(r.polygons_file_path) == flag_value_of(views(args@), "--polygons"@),
            r.axis_solver == axis_solver_choice(views(args@)),
            r.mask_backend == MaskBackend::Cpu,
            r.obstacle_flags == obstacle_flags_of(
                views(args@),
                flag_value_of(views(args@), "--lines"@) is Some,
            ),
            r.point_solver == point_solver_choice(views(args@)),
    {
        let limit = match flag_value(args, "--limit") {
            Some(v) => parse_usize(v.as_str()),
            None => None,
        };
        let lines_file_path = flag_value(args, "--lines");
        let has_lines = lines_file_path.is_some();
        let obstacles = parse_obstacles_flag(args, has_lines);
        let obstacle_flags = obstacles.flags;
        CliSwitches {
            use_mic_compare: has_flag(args, "--mic-compare"),
            real_only: has_flag(args, "--real-only"),
            use_parallel: has_flag(args, "--parallel"),
            use_sa: has_flag(args, "--sa"),
            use_bootstrap_seeds: has_flag(args, "--bootstrap-seeds"),
            use_pca_axes: has_flag(args, "--pca-axes"),
            use_early_stopping: has_flag(args, "--early-stop"),
            use_edge_anchored: has_flag(args, "--edge-anchored"),
            use_gradient_expand: has_flag(args, "--gradient-expand"),
            use_ler: has_flag(args, "--ler"),
            use_approx_oriented: !has_flag(args, "--baseline"),
            use_json: has_flag(args, "--json"),
            limit,
            file_path: flag_value(args, "--file"),
            lines_file_path,
            polygons_file_path: flag_value(args, "--polygons"),
            axis_solver: parse_axis_solver(args),
            mask_backend: MaskBackend::Cpu,
            obstacle_flags,
            point_solver: parse_point_solver(args),
        }
    }
}

/// Name of an axis solver in titles.
pub open spec fn axis_solver_text(s: AxisCliSolver) -> Seq<char> {
    match s {
        AxisCliSolver::Vertex => "vertex"@,
        AxisCliSolver::Exact => "exact"@,
        AxisCliSolver::Grid => "grid"@,
    }
}

/// Name of the point obstacles' solver in titles.
pub open spec fn point_mode_text(p: PointCliSolver) -> Seq<char> {
    match p {
        PointCliSolver::Planar => "points(planar)"@,
        PointCliSolver::Sweep => "points"@,
        PointCliSolver::Dc => "points(dc)"@,
    }
}

/// `text` when `on`, nothing otherwise.
pub open spec fn when(on: bool, text: Seq<char>) -> Seq<char> {
    if on {
        text
    } else {
        Seq::empty()
    }
}

/// Title of the empty-rectangle mode: `LER` and the active obstacle types,
/// joined by `+`.
pub open spec fn ler_text(f: ObstacleFlags, p: PointCliSolver) -> Seq<char> {
    "LER"@ + when(f.points, "+"@ + point_mode_text(p)) + when(f.lines, "+lines"@) + when(
        f.polygons,
        "+polygons"@,
    )
}

/// The algorithm title of a configuration, with an empty SIMD suffix.
pub open spec fn algo_text(c: CliSwitches) -> Seq<char> {
    if c.use_mic_compare {
        "MIC exact vs GEOS"@
    } else if c.use_ler {
        ler_text(c.obstacle_flags, c.point_solver)
    } else if c.use_sa && c.use_parallel {
        "LIR Approx Oriented + SA + local angle polish"@
    } else if c.use_sa {
        "LIR Approx Oriented + SA rescue"@
    } else if c.use_bootstrap_seeds && c.use_edge_anchored {
        "LIR Approx Oriented + bootstrap seeds + edge-anchored"@
    } else if c.use_bootstrap_seeds && c.use_parallel {
        "LIR Approx Oriented + bootstrap seeds + local angle polish"@
    } else if c.use_bootstrap_seeds {
        "LIR Approx Oriented + bootstrap seeds"@
    } else if c.use_edge_anchored {
        "LIR Approx Oriented + edge-anchored"@
    } else if c.use_parallel {
        "LIR Approx Oriented + local angle polish"@
    } else if c.use_approx_oriented {
        "LIR Approx Oriented"@
    } else {
        match c.axis_solver {
            AxisCliSolver::Grid => "axis-aligned (solver="@ + axis_solver_text(c.axis_solver) + ", mask="@
                + "cpu"@ + ")"@,
            _ => "axis-aligned (solver="@ + axis_solver_text(c.axis_solver) + ")"@,
        }
    }
}

fn ler_title(f: ObstacleFlags, p: PointCliSolver) -> (r: String)
    ensures
        r@ == ler_text(f, p),
{
    let mut s = String::from_str("LER");
    let ghost s0 = s@;
    if f.points {
        let mode = match p {
            PointCliSolver::Planar => "points(planar)",
            PointCliSolver::Sweep => "points",
            PointCliSolver::Dc => "points(dc)",
        };
        s.append("+");
        s.append(mode);
    }
    proof {
        assert(s@ =~= s0 + when(f.points, "+"@ + point_mode_text(p)));
    }
    let ghost s1 = s@;
    if f.lines {
        s.append("+lines");
    }
    proof {
        assert(s@ =~= s1 + when(f.lines, "+lines"@));
    }
    let ghost s2 = s@;
    if f.polygons {
        s.append("+polygons");
    }
    proof {
        assert(s@ =~= s2 + when(f.polygons, "+polygons"@));
    }
    s
}

/// Generate a human-readable algorithm name for the current configuration.
pub fn algo_name(config: &CliSwitches) -> (r: String)
    ensures
        r@ == algo_text(*config),
{
    let mut s = if config.use_mic_compare {
        String::from_str("MIC exact vs GEOS")
    } else if config.use_ler {
        ler_title(config.obstacle_flags, config.point_solver)
    } else if config.use_sa && config.use_parallel {
        String::from_str("LIR Approx Oriented + SA + local angle polish")
    } else if config.use_sa {
        String::from_str("LIR Approx Oriented + SA rescue")
    } else if config.use_bootstrap_seeds && config.use_edge_anchored {
        String::from_str("LIR Approx Oriented + bootstrap seeds + edge-anchored")
    } else if config.use_bootstrap_seeds && config.use_parallel {
        String::from_str("LIR Approx Oriented + bootstrap seeds + local angle polish")
    } else if config.use_bootstrap_seeds {
        String::from_str("LIR Approx Oriented + bootstrap seeds")
    } else if config.use_edge_anchored {
        String::from_str("LIR Approx Oriented + edge-anchored")
    } else if config.use_parallel {
        String::from_str("LIR Approx Oriented + local angle polish")
    } else if config.use_approx_oriented {
        String::from_str("LIR Approx Oriented")
    } else {
        let mut t = String::from_str("axis-aligned (solver=");
        t.append(axis_solver_name(config.axis_solver));
        match config.axis_solver {
            AxisCliSolver::Grid => {
                t.append(", mask=");
                t.append(mask_backend_name(config.mask_backend));
                t.append(")");
            },
            _ => {
                t.append(")");
            },
        }
        t
    };
    let ghost before = s@;
    s.append(simd_status());
    proof {
        reveal_strlit("");
        assert(s@ =~= before);
    }
    s
}

/// Which solver the visualisation driver runs on each polygon.
#[derive(Debug, Clone, Copy, PartialEq, Eq, Structural)]
pub enum SolveMode {
    /// Largest empty rectangle amid obstacles around the polygon's vertices.
    EmptyRectangle,
    /// Oriented solver with the options the switches tune.
    OrientedTuned,
    /// Oriented solver with its default options.
    OrientedDefault,
    /// Axis-aligned vertex-grid solver.
    AxisVertex,
    /// Exhaustive axis-aligned solver.
    AxisExact,
    /// Axis-aligned raster solver.
    AxisGrid,
}

/// The solver that a configuration selects.
pub open spec fn mode_of(c: CliSwitches) -> SolveMode {
    if c.use_ler {
        SolveMode::EmptyRectangle
    } else if c.use_parallel || c.use_sa || c.use_bootstrap_seeds || c.use_pca_axes
        || c.use_early_stopping || c.use_edge_anchored {
        SolveMode::OrientedTuned
    } else if c.use_approx_oriented {
        SolveMode::OrientedDefault
    } else {
        match c.axis_solver {
            AxisCliSolver::Vertex => SolveMode::AxisVertex,
            AxisCliSolver::Exact => SolveMode::AxisExact,
            AxisCliSolver::Grid => SolveMode::AxisGrid,
        }
    }
}

/// The solver the driver runs for a configuration: the empty-rectangle
/// solver in `--ler` mode, the oriented solver (tuned where any of its
/// switches is given), or the chosen axis-aligned solver under `--baseline`.
pub fn solve_mode(config: &CliSwitches) -> (m: SolveMode)
    ensures
        m == mode_of(*config),
{
    if config.use_ler {
        SolveMode::EmptyRectangle
    } else if config.use_parallel || config.use_sa || config.use_bootstrap_seeds || config.use_pca_axes
        || config.use_early_stopping || config.use_edge_anchored {
        SolveMode::OrientedTuned
    } else if config.use_approx_oriented {
        SolveMode::OrientedDefault
    } else {
        match config.axis_solver {
            AxisCliSolver::Vertex => SolveMode::AxisVertex,
            AxisCliSolver::Exact => SolveMode::AxisExact,
            AxisCliSolver::Grid => SolveMode::AxisGrid,
        }
    }
}

/// The name under which titles show each axis solver reads back as that
/// solver on `--axis-solver`, and naming the default solver explicitly
/// selects what leaving the flags out selects.
pub proof fn lemma_axis_solver_names(s: AxisCliSolver, args: Seq<Seq<char>>)
    ensures
        axis_solver_named(axis_solver_text(s)) == Some(s),
        !args.contains("--axis-solver"@) && !args.contains("--baseline-grid"@) ==> axis_solver_choice(
            args + seq!["--axis-solver"@, "vertex"@],
        ) == axis_solver_choice(args),
{
    reveal_strlit("vertex");
    reveal_strlit("vertex_grid");
    reveal_strlit("exact");
    reveal_strlit("grid");
    reveal_strlit("--axis-solver");
    reveal_strlit("--baseline-grid");
    assert("vertex"@.len() == 6 && "vertex_grid"@.len() == 11 && "exact"@.len() == 5);
    assert("grid"@.len() == 4);
    assert("--axis-solver"@.len() == 13 && "--baseline-grid"@.len() == 15);
    assert("vertex"@ != "exact"@) by {
        assert("vertex"@[0] != "exact"@[0]);
    }
    if !args.contains("--axis-solver"@) && !args.contains("--baseline-grid"@) {
        let all = args + seq!["--axis-solver"@, "vertex"@];
        lemma_appended_flag_value(args, "--axis-solver"@, "vertex"@);
        lemma_absent_flag_value(args, "--axis-solver"@);
        assert(!all.contains("--baseline-grid"@)) by {
            if all.contains("--baseline-grid"@) {
                let k = choose|k: int| 0 <= k < all.len() && all[k] == "--baseline-grid"@;
                if k < args.len() {
                    assert(all[k] == args[k]);
                } else {
                    assert(all[k].len() != 15);
                }
            }
        }
    }
}

/// Outside the empty-rectangle mode, every oriented tuning switch selects
/// the tuned oriented solver; the default oriented solver runs only when no
/// tuning switch is given, and then (without the circle comparison) the
/// title is the plain oriented one.
pub proof fn lemma_tuning_switches_select_tuned(c: CliSwitches)
    ensures
        c.use_ler ==> mode_of(c) == SolveMode::EmptyRectangle,
        !c.use_ler && (c.use_parallel || c.use_sa || c.use_bootstrap_seeds || c.use_pca_axes
            || c.use_early_stopping || c.use_edge_anchored) ==> mode_of(c)
            == SolveMode::OrientedTuned,
        mode_of(c) == SolveMode::OrientedDefault ==> {
            &&& !c.use_ler && c.use_approx_oriented
            &&& !c.use_parallel && !c.use_sa && !c.use_bootstrap_seeds && !c.use_pca_axes
            &&& !c.use_early_stopping && !c.use_edge_anchored
        },
        mode_of(c) == SolveMode::OrientedDefault && !c.use_mic_compare ==> algo_text(c)
            == "LIR Approx Oriented"@,
{
}

/// The singular spelling of an `--obstacles` entry, made plural.
pub open spec fn plural(t: Seq<char>) -> Seq<char> {
    if t == "point"@ {
        "points"@
    } else if t == "line"@ {
        "lines"@
    } else if t == "polygon"@ {
        "polygons"@
    } else {
        t
    }
}

proof fn lemma_plural_entry(t: Seq<char>)
    ensures
        names_points(plural(t)) == names_points(t),
        names_lines(plural(t)) == names_lines(t),
        names_polygons(plural(t)) == names_polygons(t),
        names_obstacle(plural(t)) == names_obstacle(t),
        !names_obstacle(t) ==> plural(t) == t,
{
    reveal_strlit("points");
    reveal_strlit("point");
    reveal_strlit("lines");
    reveal_strlit("line");
    reveal_strlit("polygons");
    reveal_strlit("polygon");
    reveal_strlit("all");
    reveal_strlit("none");
    assert("points"@.len() == 6 && "point"@.len() == 5 && "lines"@.len() == 5);
    assert("line"@.len() == 4 && "polygons"@.len() == 8 && "polygon"@.len() == 7);
    assert("all"@.len() == 3 && "none"@.len() == 4);
    assert("point"@ != "lines"@) by {
        assert("point"@[0] != "lines"@[0]);
    }
    assert("line"@ != "none"@) by {
        assert("line"@[0] != "none"@[0]);
    }
}

/// Each singular entry (`point`, `line`, `polygon`) selects exactly what its
/// plural does: spelling any entries of a list in the plural changes neither
/// the selected obstacle types, nor the fallback, nor the unknown entries.
pub proof fn lemma_singular_entries_like_plural(ts: Seq<Seq<char>>)
    ensures
        flags_from_entries(ts.map_values(|t: Seq<char>| plural(t))) == flags_from_entries(ts),
        enables_any(ts.map_values(|t: Seq<char>| plural(t))) == enables_any(ts),
        unknown_entries(ts.map_values(|t: Seq<char>| plural(t))) == unknown_entries(ts),
    decreases ts.len(),
{
    let us = ts.map_values(|t: Seq<char>| plural(t));
    assert forall|k: int| 0 <= k < ts.len() implies {
        &&& names_points(#[trigger] us[k]) == names_points(ts[k])
        &&& names_lines(us[k]) == names_lines(ts[k])
        &&& names_polygons(us[k]) == names_polygons(ts[k])
    } by {
        lemma_plural_entry(ts[k]);
    }
    assert(any_points(us) == any_points(ts)) by {
        if any_points(ts) {
            let k = choose|k: int| 0 <= k < ts.len() && names_points(#[trigger] ts[k]);
            assert(names_points(us[k]));
        }
        if any_points(us) {
            let k = choose|k: int| 0 <= k < us.len() && names_points(#[trigger] us[k]);
            assert(names_points(ts[k]));
        }
    }
    assert(any_lines(us) == any_lines(ts)) by {
        if any_lines(ts) {
            let k = choose|k: int| 0 <= k < ts.len() && names_lines(#[trigger] ts[k]);
            assert(names_lines(us[k]));
        }
        if any_lines(us) {
            let k = choose|k: int| 0 <= k < us.len() && names_lines(#[trigger] us[k]);
            assert(names_lines(ts[k]));
        }
    }
    assert(any_polygons(us) == any_polygons(ts)) by {
        if any_polygons(ts) {
            let k = choose|k: int| 0 <= k < ts.len() && names_polygons(#[trigger] ts[k]);
            assert(names_polygons(us[k]));
        }
        if any_polygons(us) {
            let k = choose|k: int| 0 <= k < us.len() && names_polygons(#[trigger] us[k]);
            assert(names_polygons(ts[k]));
        }
    }
    if ts.len() > 0 {
        let init = ts.drop_last();
        lemma_singular_entries_like_plural(init);
        assert(us.drop_last() =~= init.map_values(|t: Seq<char>| plural(t)));
        lemma_plural_entry(ts.last());
        assert(us.last() == plural(ts.last()));
    }
}

/// Adding `all` to any list selects every obstacle type with no fallback;
/// adding `none` changes nothing, and neither is reported as unknown.
pub proof fn lemma_all_and_none_entries(ts: Seq<Seq<char>>)
    ensures
        flags_from_entries(ts.push("all"@)) == (ObstacleFlags { points: true, lines: true, polygons: true }),
        enables_any(ts.push("all"@)),
        unknown_entries(ts.push("all"@)) == unknown_entries(ts),
        flags_from_entries(ts.push("none"@)) == flags_from_entries(ts),
        enables_any(ts.push("none"@)) == enables_any(ts),
        unknown_entries(ts.push("none"@)) == unknown_entries(ts),
{
    reveal_strlit("points");
    reveal_strlit("point");
    reveal_strlit("lines");
    reveal_strlit("line");
    reveal_strlit("polygons");
    reveal_strlit("polygon");
    reveal_strlit("all");
    reveal_strlit("none");
    assert("points"@.len() == 6 && "point"@.len() == 5 && "lines"@.len() == 5);
    assert("line"@.len() == 4 && "polygons"@.len() == 8 && "polygon"@.len() == 7);
    assert("all"@.len() == 3 && "none"@.len() == 4);
    assert("line"@ != "none"@) by {
        assert("line"@[0] != "none"@[0]);
    }
    let a = ts.push("all"@);
    let z = ts.push("none"@);
    assert(names_points(a[ts.len() as int]));
    assert(names_lines(a[ts.len() as int]));
    assert(names_polygons(a[ts.len() as int]));
    assert(a.drop_last() =~= ts);
    assert(z.drop_last() =~= ts);
    assert(any_points(z) == any_points(ts)) by {
        if any_points(ts) {
            let k = choose|k: int| 0 <= k < ts.len() && names_points(#[trigger] ts[k]);
            assert(names_points(z[k]));
        }
    }
    assert(any_lines(z) == any_lines(ts)) by {
        if any_lines(ts) {
            let k = choose|k: int| 0 <= k < ts.len() && names_lines(#[trigger] ts[k]);
            assert(names_lines(z[k]));
        }
    }
    assert(any_polygons(z) == any_polygons(ts)) by {
        if any_polygons(ts) {
            let k = choose|k: int| 0 <= k < ts.len() && names_polygons(#[trigger] ts[k]);
            assert(names_polygons(z[k]));
        }
    }
}

} // verus!
