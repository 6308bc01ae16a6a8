//! Filter directives: the `[target=]level[,...]` grammar and the rule that
//! the most specific matching directive decides.

use vstd::prelude::*;
use crate::level::{Level, LevelFilter, filter_rank, level_rank, passes, level_passes, filter_rank_of};
use crate::text::{split_on, trim, lemma_split_on_nonempty, lemma_split_on_concat, chars_of, trim_chars, split_chars};

verus! {

/// A directive as a value: an optional target prefix and its threshold.
pub type DirectiveView = (Option<Seq<char>>, LevelFilter);

/// `c` lowered when it is an ASCII capital letter.
pub open spec fn ascii_lower(c: char) -> u32 {
    if 65 <= c as u32 && c as u32 <= 90 {
        (c as u32 + 32) as u32
    } else {
        c as u32
    }
}

pub open spec fn eq_ignore_ascii_case(a: Seq<char>, b: Seq<char>) -> bool {
    a.len() == b.len() && forall|i: int| 0 <= i < a.len() ==> ascii_lower(a[i]) == ascii_lower(b[i])
}

/// The threshold that a level token names, in any ASCII case.
pub open spec fn level_of_token(t: Seq<char>) -> Option<LevelFilter> {
    if eq_ignore_ascii_case(t, seq!['o', 'f', 'f']) {
        Some(LevelFilter::Off)
    } else if eq_ignore_ascii_case(t, seq!['e', 'r', 'r', 'o', 'r']) {
        Some(LevelFilter::Error)
    } else if eq_ignore_ascii_case(t, seq!['w', 'a', 'r', 'n']) {
        Some(LevelFilter::Warn)
    } else if eq_ignore_ascii_case(t, seq!['i', 'n', 'f', 'o']) {
        Some(LevelFilter::Info)
    } else if eq_ignore_ascii_case(t, seq!['d', 'e', 'b', 'u', 'g']) {
        Some(LevelFilter::Debug)
    } else if eq_ignore_ascii_case(t, seq!['t', 'r', 'a', 'c', 'e']) {
        Some(LevelFilter::Trace)
    } else {
        None
    }
}

/// An empty target names no target: the directive is the global default.
pub open spec fn named(n: Seq<char>) -> Option<Seq<char>> {
    if n.len() == 0 {
        None
    } else {
        Some(n)
    }
}

/// The directive that one comma-separated segment states, or `None` where the
/// segment is empty or malformed.
///  - `level` sets the global default;
///  - `target` alone lets everything of that target through;
///  - `target=level` sets the threshold of that target (`target=` as `target`);
///  - an unknown level, or more than one `=`, makes the segment malformed.
pub open spec fn segment_directive(seg: Seq<char>) -> Option<DirectiveView> {
    let s = trim(seg);
    let parts = split_on(s, '=');
    if s.len() == 0 {
        None
    } else if parts.len() == 1 {
        match level_of_token(s) {
            Some(l) => Some((None, l)),
            None => Some((Some(s), LevelFilter::Trace)),
        }
    } else if parts.len() == 2 {
        let value = trim(parts[1]);
        if value.len() == 0 {
            Some((named(parts[0]), LevelFilter::Trace))
        } else {
            match level_of_token(value) {
                Some(l) => Some((named(parts[0]), l)),
                None => None,
            }
        }
    } else {
        None
    }
}

/// The directives of well-formed segments, in order; the others are skipped.
pub open spec fn collect_directives(segs: Seq<Seq<char>>) -> Seq<DirectiveView>
    decreases segs.len(),
{
    if segs.len() == 0 {
        seq![]
    } else {
        let prev = collect_directives(segs.drop_last());
        match segment_directive(segs.last()) {
            Some(d) => prev.push(d),
            None => prev,
        }
    }
}

/// The directives of a filter string. What follows a `/` filters messages and
/// is not used here; a string with two `/` or more holds no directive.
pub open spec fn parse_directives(spec: Seq<char>) -> Seq<DirectiveView> {
    let parts = split_on(spec, '/');
    if parts.len() > 2 {
        seq![]
    } else {
        collect_directives(split_on(parts[0], ','))
    }
}

/// A string without any directive leaves errors only.
pub open spec fn compiled(dirs: Seq<DirectiveView>) -> Seq<DirectiveView> {
    if dirs.len() == 0 {
        seq![(None, LevelFilter::Error)]
    } else {
        dirs
    }
}

/// The default threshold without a filter string: `Warn` in debug builds,
/// `Error` otherwise.
pub open spec fn default_threshold(debug: bool) -> LevelFilter {
    if debug {
        LevelFilter::Warn
    } else {
        LevelFilter::Error
    }
}

/// The directives in force for an optional filter string.
pub open spec fn configured(source: Option<Seq<char>>, debug: bool) -> Seq<DirectiveView> {
    match source {
        Some(s) => compiled(parse_directives(s)),
        None => seq![(None, default_threshold(debug))],
    }
}

pub open spec fn name_len(d: DirectiveView) -> nat {
    match d.0 {
        Some(n) => n.len(),
        None => 0,
    }
}

pub open spec fn directive_matches(d: DirectiveView, target: Seq<char>) -> bool {
    match d.0 {
        Some(n) => n.is_prefix_of(target),
        None => true,
    }
}

/// Among the first `n` directives, the index of the matching one with the
/// longest target, the last one among equally long.
pub open spec fn most_specific(dirs: Seq<DirectiveView>, target: Seq<char>, n: nat) -> Option<int>
    decreases n,
{
    if n == 0 {
        None
    } else {
        let prev = most_specific(dirs, target, (n - 1) as nat);
        let i = n - 1;
        if directive_matches(dirs[i], target) && match prev {
            Some(p) => name_len(dirs[p]) <= name_len(dirs[i]),
            None => true,
        } {
            Some(i)
        } else {
            prev
        }
    }
}

/// The threshold for `target`: that of the most specific matching directive,
/// `Off` where none matches.
pub open spec fn threshold(dirs: Seq<DirectiveView>, target: Seq<char>) -> LevelFilter {
    match most_specific(dirs, target, dirs.len()) {
        Some(i) => dirs[i].1,
        None => LevelFilter::Off,
    }
}

pub open spec fn enabled_by(dirs: Seq<DirectiveView>, target: Seq<char>, level: Level) -> bool {
    passes(level, threshold(dirs, target))
}

/// The most verbose threshold among the directives.
pub open spec fn max_threshold(dirs: Seq<DirectiveView>) -> LevelFilter
    decreases dirs.len(),
{
    if dirs.len() == 0 {
        LevelFilter::Off
    } else {
        let m = max_threshold(dirs.drop_last());
        if filter_rank(dirs.last().1) > filter_rank(m) {
            dirs.last().1
        } else {
            m
        }
    }
}

/// One directive: an optional target prefix and its threshold.
pub struct Directive {
    pub name: Option<Vec<char>>,
    pub level: LevelFilter,
}

impl View for Directive {
    type V = DirectiveView;

    open spec fn view(&self) -> DirectiveView {
        (
            match self.name {
                Some(n) => Some(n@),
                None => None,
            },
            self.level,
        )
    }
}

pub open spec fn option_view(d: Option<Directive>) -> Option<DirectiveView> {
    match d {
        Some(d) => Some(d@),
        None => None,
    }
}

/// The compiled directive table; it never changes once built.
pub struct FilterConfig {
    pub directives: Vec<Directive>,
}

impl View for FilterConfig {
    type V = Seq<DirectiveView>;

    open spec fn view(&self) -> Seq<DirectiveView> {
        self.directives@.map_values(|d: Directive| d@)
    }
}

fn ascii_lower_of(c: char) -> (r: u32)
    ensures
        r == ascii_lower(c),
{
    let u = c as u32;
    if 65 <= u && u <= 90 {
        u + 32
    } else {
        u
    }
}

fn eq_ignore_case(a: &Vec<char>, b: &Vec<char>) -> (r: bool)
    ensures
        r == eq_ignore_ascii_case(a@, b@),
{
    if a.len() != b.len() {
        return false;
    }
    let mut i: usize = 0;
    while i < a.len()
        invariant
            a@.len() == b@.len(),
            i <= a@.len(),
            forall|k: int| 0 <= k < i ==> ascii_lower(a@[k]) == ascii_lower(b@[k]),
        decreases a@.len() - i,
    {
        if ascii_lower_of(a[i]) != ascii_lower_of(b[i]) {
            return false;
        }
        i = i + 1;
    }
    true
}

/// The threshold that a level token names, in any ASCII case.
pub fn level_from_token(t: &Vec<char>) -> (r: Option<LevelFilter>)
    ensures
        r == level_of_token(t@),
{
    let off = vec!['o', 'f', 'f'];
    let error = vec!['e', 'r', 'r', 'o', 'r'];
    let warn = vec!['w', 'a', 'r', 'n'];
    let info = vec!['i', 'n', 'f', 'o'];
    let debug = vec!['d', 'e', 'b', 'u', 'g'];
    let trace = vec!['t', 'r', 'a', 'c', 'e'];
    assert(off@ =~= seq!['o', 'f', 'f']);
    assert(error@ =~= seq!['e', 'r', 'r', 'o', 'r']);
    assert(warn@ =~= seq!['w', 'a', 'r', 'n']);
    assert(info@ =~= seq!['i', 'n', 'f', 'o']);
    assert(debug@ =~= seq!['d', 'e', 'b', 'u', 'g']);
    assert(trace@ =~= seq!['t', 'r', 'a', 'c', 'e']);
    if eq_ignore_case(t, &off) {
        Some(LevelFilter::Off)
    } else if eq_ignore_case(t, &error) {
        Some(LevelFilter::Error)
    } else if eq_ignore_case(t, &warn) {
        Some(LevelFilter::Warn)
    } else if eq_ignore_case(t, &info) {
        Some(LevelFilter::Info)
    } else if eq_ignore_case(t, &debug) {
        Some(LevelFilter::Debug)
    } else if eq_ignore_case(t, &trace) {
        Some(LevelFilter::Trace)
    } else {
        None
    }
}

fn named_of(n: Vec<char>) -> (r: Option<Vec<char>>)
    ensures
        match r {
            Some(v) => Some(v@),
            None => None::<Seq<char>>,
        } == named(n@),
{
    if n.len() == 0 {
        None
    } else {
        Some(n)
    }
}

/// The directive that one segment states, `None` where it is empty or
/// malformed.
pub fn parse_segment(seg: &Vec<char>) -> (r: Option<Directive>)
    ensures
        option_view(r) == segment_directive(seg@),
{
    let s = trim_chars(seg);
    if s.len() == 0 {
        return None;
    }
    let mut parts = split_chars(&s, '=');
    if parts.len() == 1 {
        assert(parts@[0]@ == split_on(s@, '=')[0]);
        match level_from_token(&s) {
            Some(l) => Some(Directive { name: None, level: l }),
            None => Some(Directive { name: Some(s), level: LevelFilter::Trace }),
        }
    } else if parts.len() == 2 {
        assert(parts@[0]@ == split_on(s@, '=')[0]);
        assert(parts@[1]@ == split_on(s@, '=')[1]);
        let value = trim_chars(&parts[1]);
        let target = parts.swap_remove(0);
        if value.len() == 0 {
            Some(Directive { name: named_of(target), level: LevelFilter::Trace })
        } else {
            match level_from_token(&value) {
                Some(l) => Some(Directive { name: named_of(target), level: l }),
                None => None,
            }
        }
    } else {
        None
    }
}

impl FilterConfig {
    /// Parses a filter string; malformed segments are skipped, and a string
    /// without any directive lets errors only through.
    pub fn parse(spec: &str) -> (r: FilterConfig)
        ensures
            r@ == compiled(parse_directives(spec@)),
    {
        let chars = chars_of(spec);
        let halves = split_chars(&chars, '/');
        let mut directives: Vec<Directive> = Vec::new();
        if halves.len() <= 2 {
            proof {
                lemma_split_on_nonempty(spec@, '/');
            }
            assert(halves@[0]@ == split_on(spec@, '/')[0]);
            let segs = split_chars(&halves[0], ',');
            let ghost segv = split_on(spec@, '/')[0];
            let mut i: usize = 0;
            assert(split_on(segv, ',').subrange(0, 0) =~= Seq::<Seq<char>>::empty());
            while i < segs.len()
                invariant
                    i <= segs@.len() == split_on(segv, ',').len(),
                    forall|k: int|
                        0 <= k < segs@.len() ==> #[trigger] segs@[k]@ == split_on(segv, ',')[k],
                    directives@.map_values(|d: Directive| d@) == collect_directives(
                        split_on(segv, ',').subrange(0, i as int),
                    ),
                decreases segs@.len() - i,
            {
                let ghost all = split_on(segv, ',');
                assert(all.subrange(0, i + 1).drop_last() =~= all.subrange(0, i as int));
                assert(segs@[i as int]@ == all[i as int]);
                match parse_segment(&segs[i]) {
                    Some(d) => {
                        directives.push(d);
                        assert(directives@.map_values(|d: Directive| d@) =~= collect_directives(
                            all.subrange(0, i + 1),
                        ));
                    },
                    None => {},
                }
                i = i + 1;
            }
            assert(split_on(segv, ',').subrange(0, i as int) =~= split_on(segv, ','));
        }
        if directives.len() == 0 {
            directives.push(Directive { name: None, level: LevelFilter::Error });
            assert(directives@.map_values(|d: Directive| d@) =~= seq![
                (None::<Seq<char>>, LevelFilter::Error),
            ]);
        }
        FilterConfig { directives }
    }

    /// The filter from an optional filter string; without one, the single
    /// global default `Warn` in debug builds and `Error` otherwise.
    pub fn build(source: Option<&str>, debug: bool) -> (r: FilterConfig)
        ensures
            r@ == configured(
                match source {
                    Some(s) => Some(s@),
                    None => None,
                },
                debug,
            ),
    {
        match source {
            Some(s) => FilterConfig::parse(s),
            None => {
                let level = if debug {
                    LevelFilter::Warn
                } else {
                    LevelFilter::Error
                };
                let mut directives: Vec<Directive> = Vec::new();
                directives.push(Directive { name: None, level });
                assert(directives@.map_values(|d: Directive| d@) =~= seq![
                    (None::<Seq<char>>, default_threshold(debug)),
                ]);
                FilterConfig { directives }
            },
        }
    }
}

fn is_prefix(name: &Vec<char>, target: &Vec<char>) -> (r: bool)
    ensures
        r == name@.is_prefix_of(target@),
{
    if name.len() > target.len() {
        return false;
    }
    let mut i: usize = 0;
    while i < name.len()
        invariant
            name@.len() <= target@.len(),
            i <= name@.len(),
            forall|k: int| 0 <= k < i ==> name@[k] == target@[k],
        decreases name@.len() - i,
    {
        if name[i] != target[i] {
            assert(name@ != target@.subrange(0, name@.len() as int));
            return false;
        }
        i = i + 1;
    }
    assert(name@ =~= target@.subrange(0, name@.len() as int));
    true
}

impl FilterConfig {
    /// Whether a record of `level` for `target` passes: the most specific
    /// matching directive decides.
    pub fn enabled(&self, target: &str, level: Level) -> (r: bool)
        ensures
            r == enabled_by(self@, target@, level),
    {
        let t = chars_of(target);
        let mut best: Option<usize> = None;
        let mut best_len: usize = 0;
        let mut i: usize = 0;
        while i < self.directives.len()
            invariant
                i <= self@.len() == self.directives@.len(),
                self@ == self.directives@.map_values(|d: Directive| d@),
                t@ == target@,
                match best {
                    Some(b) => most_specific(self@, t@, i as nat) == Some(b as int) && b < i
                        && best_len == name_len(self@[b as int]),
                    None => most_specific(self@, t@, i as nat) == None::<int>,
                },
            decreases self@.len() - i,
        {
            let d = &self.directives[i];
            let (matched, len) = match &d.name {
                Some(n) => (is_prefix(n, &t), n.len()),
                None => (true, 0),
            };
            assert(d@ == self@[i as int]);
            if matched && (best.is_none() || best_len <= len) {
                best = Some(i);
                best_len = len;
            }
            i = i + 1;
        }
        match best {
            Some(b) => level_passes(level, self.directives[b].level),
            None => level_passes(level, LevelFilter::Off),
        }
    }

    /// The most verbose threshold of the table: no record above it can pass.
    pub fn max_level(&self) -> (r: LevelFilter)
        ensures
            r == max_threshold(self@),
    {
        let mut m = LevelFilter::Off;
        let mut i: usize = 0;
        while i < self.directives.len()
            invariant
                i <= self@.len() == self.directives@.len(),
                self@ == self.directives@.map_values(|d: Directive| d@),
                m == max_threshold(self@.subrange(0, i as int)),
            decreases self@.len() - i,
        {
            assert(self@.subrange(0, i + 1).drop_last() =~= self@.subrange(0, i as int));
            let l = self.directives[i].level;
            if filter_rank_of(l) > filter_rank_of(m) {
                m = l;
            }
            i = i + 1;
        }
        assert(self@.subrange(0, i as int) =~= self@);
        m
    }
}

/// The threshold of a target is that of a matching directive whose target is
/// at least as long as any other matching one and longer than any matching
/// one after it; where no directive matches, nothing passes.
pub proof fn lemma_most_specific_wins(dirs: Seq<DirectiveView>, target: Seq<char>, n: nat)
    requires
        n <= dirs.len(),
    ensures
        match most_specific(dirs, target, n) {
            Some(i) => 0 <= i < n && directive_matches(dirs[i], target) && (forall|j: int|
                0 <= j < n && #[trigger] directive_matches(dirs[j], target) ==> name_len(dirs[j])
                    <= name_len(dirs[i])) && (forall|j: int|
                i < j < n && #[trigger] directive_matches(dirs[j], target) ==> name_len(dirs[j])
                    < name_len(dirs[i])),
            None => forall|j: int| 0 <= j < n ==> !#[trigger] directive_matches(dirs[j], target),
        },
    decreases n,
{
    if n > 0 {
        lemma_most_specific_wins(dirs, target, (n - 1) as nat);
    }
}

/// For every table, target and level, a record passes exactly when its level
/// is at or above the threshold of the most specific matching directive: one
/// that matches, with a target as long as any matching one, and the last such.
/// Where no directive matches, nothing passes.
pub proof fn law_enabled_by_most_specific(dirs: Seq<DirectiveView>, target: Seq<char>, level: Level)
    ensures
        enabled_by(dirs, target, level) <==> exists|i: int|
            0 <= i < dirs.len() && directive_matches(dirs[i], target) && (forall|j: int|
                0 <= j < dirs.len() && #[trigger] directive_matches(dirs[j], target)
                    ==> name_len(dirs[j]) <= name_len(dirs[i])) && (forall|j: int|
                i < j < dirs.len() && #[trigger] directive_matches(dirs[j], target)
                    ==> name_len(dirs[j]) < name_len(dirs[i])) && passes(level, dirs[i].1),
{
    lemma_most_specific_wins(dirs, target, dirs.len());
    match most_specific(dirs, target, dirs.len()) {
        Some(i) => {
            assert forall|k: int|
                0 <= k < dirs.len() && directive_matches(dirs[k], target) && (forall|j: int|
                    0 <= j < dirs.len() && #[trigger] directive_matches(dirs[j], target)
                        ==> name_len(dirs[j]) <= name_len(dirs[k])) && (forall|j: int|
                    k < j < dirs.len() && #[trigger] directive_matches(dirs[j], target)
                        ==> name_len(dirs[j]) < name_len(dirs[k])) implies k == i by {
                if k < i {
                    assert(directive_matches(dirs[i], target));
                } else if k > i {
                    assert(directive_matches(dirs[k], target));
                }
            }
        },
        None => {},
    }
}

/// Whatever passes the table also passes its most verbose threshold, so a
/// dispatcher may skip every record above that threshold.
pub proof fn law_max_level_bounds_enabled(dirs: Seq<DirectiveView>, target: Seq<char>, level: Level)
    ensures
        enabled_by(dirs, target, level) ==> passes(level, max_threshold(dirs)),
{
    lemma_max_threshold_bounds(dirs);
    lemma_most_specific_wins(dirs, target, dirs.len());
}

proof fn lemma_max_threshold_bounds(dirs: Seq<DirectiveView>)
    ensures
        forall|i: int| 0 <= i < dirs.len() ==> filter_rank(#[trigger] dirs[i].1) <= filter_rank(
            max_threshold(dirs),
        ),
    decreases dirs.len(),
{
    if dirs.len() > 0 {
        lemma_max_threshold_bounds(dirs.drop_last());
        assert forall|i: int| 0 <= i < dirs.len() implies filter_rank(#[trigger] dirs[i].1)
            <= filter_rank(max_threshold(dirs)) by {
            if i < dirs.len() - 1 {
                assert(dirs.drop_last()[i] == dirs[i]);
            }
        }
    }
}

proof fn lemma_split_on_without_sep(s: Seq<char>, sep: char)
    requires
        !s.contains(sep),
    ensures
        split_on(s, sep) =~= seq![s],
    decreases s.len(),
{
    if s.len() > 0 {
        assert(!s.drop_last().contains(sep)) by {
            if s.drop_last().contains(sep) {
                let k = choose|k: int| 0 <= k < s.drop_last().len() && s.drop_last()[k] == sep;
                assert(s[k] == sep);
            }
        }
        assert(s.last() != sep) by {
            if s.last() == sep {
                assert(s[s.len() - 1] == sep);
            }
        }
        lemma_split_on_without_sep(s.drop_last(), sep);
        assert(s.drop_last().push(s.last()) =~= s);
    } else {
        assert(s =~= Seq::<char>::empty());
    }
}

proof fn lemma_collect_concat(x: Seq<Seq<char>>, y: Seq<Seq<char>>)
    ensures
        collect_directives(x + y) =~= collect_directives(x) + collect_directives(y),
    decreases y.len(),
{
    if y.len() == 0 {
        assert(x + y =~= x);
    } else {
        assert((x + y).drop_last() =~= x + y.drop_last());
        lemma_collect_concat(x, y.drop_last());
    }
}

/// A malformed segment between two lists of directives takes nothing from
/// either: the directives of both still take effect, in order.
pub proof fn law_malformed_segment_skipped(a: Seq<char>, bad: Seq<char>, b: Seq<char>)
    requires
        !a.contains('/'),
        !bad.contains('/'),
        !b.contains('/'),
        !bad.contains(','),
        segment_directive(bad) is None,
    ensures
        parse_directives(a + seq![','] + bad + seq![','] + b) =~= parse_directives(a)
            + parse_directives(b),
{
    let s = a + seq![','] + bad + seq![','] + b;
    let ab = a + seq![','] + bad;
    assert(!s.contains('/')) by {
        if s.contains('/') {
            let k = choose|k: int| 0 <= k < s.len() && s[k] == '/';
            if k < a.len() {
                assert(a[k] == '/');
            } else if k == a.len() {
            } else if k < a.len() + 1 + bad.len() {
                assert(bad[k - a.len() - 1] == '/');
            } else if k == a.len() + 1 + bad.len() {
            } else {
                assert(b[k - a.len() - 2 - bad.len()] == '/');
            }
        }
    }
    lemma_split_on_without_sep(s, '/');
    lemma_split_on_without_sep(a, '/');
    lemma_split_on_without_sep(b, '/');
    lemma_split_on_without_sep(bad, ',');
    lemma_split_on_concat(ab, b, ',');
    lemma_split_on_concat(a, bad, ',');
    lemma_collect_concat(split_on(a, ',') + seq![bad], split_on(b, ','));
    lemma_collect_concat(split_on(a, ','), seq![bad]);
    assert(seq![bad].drop_last() =~= Seq::<Seq<char>>::empty());
    assert(seq![bad].last() == bad);
    assert(collect_directives(Seq::<Seq<char>>::empty()) =~= Seq::<DirectiveView>::empty());
    assert(collect_directives(seq![bad]) =~= Seq::<DirectiveView>::empty());
}

/// Without a filter string every target has the default threshold: `Warn`
/// in debug builds, `Error` otherwise.
pub proof fn law_default_threshold(debug: bool, target: Seq<char>, level: Level)
    ensures
        enabled_by(configured(None, debug), target, level) <==> passes(
            level,
            default_threshold(debug),
        ),
        debug ==> (enabled_by(configured(None, debug), target, level) <==> level_rank(level) <= 2),
        !debug ==> (enabled_by(configured(None, debug), target, level) <==> level == Level::Error),
{
    let dirs = configured(None, debug);
    assert(most_specific(dirs, target, 0) is None);
    assert(directive_matches(dirs[0], target));
    assert(most_specific(dirs, target, 1) == Some(0int));
}

} // verus!
