//! Links to the resources used, parsed from lines of the form `name: link`.

use vstd::prelude::*;

use crate::text::chars_of;

verus! {

broadcast use vstd::string::group_string_axioms;

/// `s` holds the separator `": "` starting at index `i`.
pub open spec fn separator_at(s: Seq<char>, i: int) -> bool {
    0 <= i && i + 1 < s.len() && s[i] == ':' && s[i + 1] == ' '
}

/// The index of the first separator `": "` in `s` at or after `from`, if any.
pub open spec fn first_separator_from(s: Seq<char>, from: int) -> Option<int>
    decreases s.len() - from,
{
    if from < 0 || from + 1 >= s.len() {
        None
    } else if separator_at(s, from) {
        Some(from)
    } else {
        first_separator_from(s, from + 1)
    }
}

/// A line of the form `name: link` split at its first `": "` into name and
/// link; `None` where the line holds no `": "`.
pub open spec fn parse_link(line: Seq<char>) -> Option<(Seq<char>, Seq<char>)> {
    match first_separator_from(line, 0) {
        Some(i) => Some((line.subrange(0, i), line.subrange(i + 2, line.len() as int))),
        None => None,
    }
}

/// The lines of `s`, split at each `'\n'` as `str::split('\n')` splits: a text
/// with `k` newlines has `k + 1` lines, and the newlines belong to none of them.
pub open spec fn split_lines(s: Seq<char>) -> Seq<Seq<char>>
    decreases s.len(),
{
    if s.len() == 0 {
        seq![Seq::empty()]
    } else {
        let lines = split_lines(s.drop_last());
        if s.last() == '\n' {
            lines.push(Seq::empty())
        } else {
            lines.update(lines.len() - 1, lines.last().push(s.last()))
        }
    }
}

/// The links of those `lines` that parse, in the order of the lines.
pub open spec fn links_of_lines(lines: Seq<Seq<char>>) -> Seq<(Seq<char>, Seq<char>)>
    decreases lines.len(),
{
    if lines.len() == 0 {
        Seq::empty()
    } else {
        let earlier = links_of_lines(lines.drop_last());
        match parse_link(lines.last()) {
            Some(l) => earlier.push(l),
            None => earlier,
        }
    }
}

/// The links listed in the text `s`, one per line that parses.
pub open spec fn source_links(s: Seq<char>) -> Seq<(Seq<char>, Seq<char>)> {
    links_of_lines(split_lines(s))
}

/// Every text has at least one line.
proof fn lemma_split_lines_nonempty(s: Seq<char>)
    ensures
        split_lines(s).len() >= 1,
    decreases s.len(),
{
    if s.len() > 0 {
        lemma_split_lines_nonempty(s.drop_last());
    }
}

/// The lines of two texts joined by a newline are the lines of the first
/// followed by the lines of the second.
pub proof fn lemma_split_lines_join(a: Seq<char>, b: Seq<char>)
    ensures
        split_lines(a + seq!['\n'] + b) == split_lines(a) + split_lines(b),
    decreases b.len(),
{
    let s = a + seq!['\n'] + b;
    if b.len() == 0 {
        assert(s.drop_last() =~= a);
        assert(split_lines(a) + split_lines(b) =~= split_lines(a).push(Seq::empty()));
    } else {
        assert(s.drop_last() =~= a + seq!['\n'] + b.drop_last());
        lemma_split_lines_join(a, b.drop_last());
        lemma_split_lines_nonempty(b.drop_last());
        let x = split_lines(a);
        let y = split_lines(b.drop_last());
        if b.last() == '\n' {
            assert((x + y).push(Seq::empty()) =~= x + y.push(Seq::empty()));
        } else {
            assert((x + y).update((x + y).len() - 1, (x + y).last().push(b.last())) =~= x
                + y.update(y.len() - 1, y.last().push(b.last())));
        }
    }
}

/// The links of two runs of lines are the links of the first run followed by
/// the links of the second.
pub proof fn lemma_links_of_lines_append(x: Seq<Seq<char>>, y: Seq<Seq<char>>)
    ensures
        links_of_lines(x + y) == links_of_lines(x) + links_of_lines(y),
    decreases y.len(),
{
    if y.len() == 0 {
        assert(x + y =~= x);
        assert(links_of_lines(x) + links_of_lines(y) =~= links_of_lines(x));
    } else {
        assert((x + y).drop_last() =~= x + y.drop_last());
        lemma_links_of_lines_append(x, y.drop_last());
        match parse_link(y.last()) {
            Some(l) => {
                assert(links_of_lines(x) + links_of_lines(y.drop_last()).push(l) =~= (
                links_of_lines(x) + links_of_lines(y.drop_last())).push(l));
            },
            None => {},
        }
    }
}

/// Lines are read independently of each other: the links of two texts joined
/// by a newline are the links of the first followed by those of the second.
pub proof fn lemma_source_links_join(a: Seq<char>, b: Seq<char>)
    ensures
        source_links(a + seq!['\n'] + b) == source_links(a) + source_links(b),
{
    lemma_split_lines_join(a, b);
    lemma_links_of_lines_append(split_lines(a), split_lines(b));
}

/// A text without newlines is a single line: it lists exactly the link that
/// `make` reads from it, if any.
pub proof fn lemma_source_links_single_line(s: Seq<char>)
    requires
        !s.contains('\n'),
    ensures
        source_links(s) == (match parse_link(s) {
            Some(l) => seq![l],
            None => Seq::empty(),
        }),
{
    lemma_split_lines_no_newline(s);
    assert(seq![s].drop_last() =~= Seq::<Seq<char>>::empty());
    assert(seq![s].last() == s);
    assert(links_of_lines(Seq::<Seq<char>>::empty()) =~= Seq::empty());
    match parse_link(s) {
        Some(l) => {
            assert(Seq::<(Seq<char>, Seq<char>)>::empty().push(l) =~= seq![l]);
        },
        None => {},
    }
}

/// A text without newlines is one line.
proof fn lemma_split_lines_no_newline(s: Seq<char>)
    requires
        !s.contains('\n'),
    ensures
        split_lines(s) == seq![s],
    decreases s.len(),
{
    if s.len() == 0 {
        assert(s =~= Seq::<char>::empty());
    } else {
        let p = s.drop_last();
        assert(!p.contains('\n')) by {
            if p.contains('\n') {
                let k = choose|k: int| 0 <= k < p.len() && p[k] == '\n';
                assert(s[k] == '\n');
            }
        }
        lemma_split_lines_no_newline(p);
        assert(s.last() != '\n') by {
            assert(s[s.len() - 1] == s.last());
        }
        assert(p.push(s.last()) =~= s);
        assert(seq![p].update(0, p.push(s.last())) =~= seq![s]);
    }
}

/// The first separator at or after `j` in `name + ": " + link`, where `name`
/// holds no separator, is the one that follows `name`.
proof fn lemma_first_separator_after_name(name: Seq<char>, link: Seq<char>, j: int)
    requires
        0 <= j <= name.len(),
        forall|i: int| !separator_at(name, i),
    ensures
        first_separator_from(name + seq![':', ' '] + link, j) == Some(name.len() as int),
    decreases name.len() - j,
{
    let s = name + seq![':', ' '] + link;
    if j < name.len() {
        assert(!separator_at(s, j)) by {
            if j + 1 < name.len() {
                assert(!separator_at(name, j));
            } else {
                assert(s[j + 1] == ':');
            }
        }
        lemma_first_separator_after_name(name, link, j + 1);
    } else {
        assert(separator_at(s, j));
    }
}

/// `make` reads back what the format `name: link` writes, for every name that
/// holds no `": "`.
pub proof fn lemma_parse_link_format(name: Seq<char>, link: Seq<char>)
    requires
        forall|i: int| !separator_at(name, i),
    ensures
        parse_link(name + seq![':', ' '] + link) == Some((name, link)),
{
    let s = name + seq![':', ' '] + link;
    lemma_first_separator_after_name(name, link, 0);
    assert(s.subrange(0, name.len() as int) =~= name);
    assert(s.subrange(name.len() as int + 2, s.len() as int) =~= link);
}

/// What the search for the first separator from `from` finds: nothing exactly
/// when no `": "` starts at or after `from`, else the first index where one does.
proof fn lemma_first_separator_from(s: Seq<char>, from: int)
    requires
        0 <= from,
    ensures
        first_separator_from(s, from) is None <==> (forall|j: int|
            from <= j && j + 1 < s.len() ==> !(#[trigger] s[j] == ':' && s[j + 1] == ' ')),
        first_separator_from(s, from) matches Some(i) ==> {
            &&& from <= i
            &&& i + 1 < s.len()
            &&& s[i] == ':'
            &&& s[i + 1] == ' '
            &&& forall|j: int| from <= j < i ==> !(#[trigger] s[j] == ':' && s[j + 1] == ' ')
        },
    decreases s.len() - from,
{
    if from + 1 < s.len() && !separator_at(s, from) {
        lemma_first_separator_from(s, from + 1);
    }
}

/// A line is read as a link exactly when it holds `": "`; the link's name is
/// what comes before the first `": "`, and its url what comes after it.
pub proof fn lemma_parse_link_splits_at_first_separator(s: Seq<char>)
    ensures
        parse_link(s) is None <==> (forall|j: int|
            0 <= j && j + 1 < s.len() ==> !(#[trigger] s[j] == ':' && s[j + 1] == ' ')),
        parse_link(s) matches Some((name, link)) ==> {
            &&& s == name + seq![':', ' '] + link
            &&& forall|j: int| 0 <= j < name.len() ==> !(#[trigger] s[j] == ':' && s[j + 1] == ' ')
        },
{
    lemma_first_separator_from(s, 0);
    match first_separator_from(s, 0) {
        Some(i) => {
            assert(s =~= s.subrange(0, i) + seq![':', ' '] + s.subrange(i + 2, s.len() as int));
        },
        None => {},
    }
}

/// A link: the name it is shown under and its url.
#[derive(Debug, Clone, Copy)]
pub struct Link {
    /// display name of the link
    pub name: &'static str,
    /// url of the link
    pub link: &'static str,
}

impl View for Link {
    type V = (Seq<char>, Seq<char>);

    open spec fn view(&self) -> (Seq<char>, Seq<char>) {
        (self.name@, self.link@)
    }
}

/// The views of `links`, in order.
pub open spec fn link_views(links: Seq<Link>) -> Seq<(Seq<char>, Seq<char>)> {
    links.map_values(|l: Link| l@)
}

impl Link {
    /// Make a `Link` from a `&str` of the format `"name: link"`, split at the
    /// first `": "`; `None` if `s` holds no `": "`.
    pub fn make(s: &'static str) -> (r: Option<Self>)
        ensures
            r is None <==> parse_link(s@) is None,
            r matches Some(l) ==> parse_link(s@) == Some(l@),
            r is None <==> (forall|j: int|
                0 <= j && j + 1 < s@.len() ==> !(#[trigger] s@[j] == ':' && s@[j + 1] == ' ')),
            r matches Some(l) ==> {
                &&& s@ == l.name@ + seq![':', ' '] + l.link@
                &&& forall|j: int|
                    0 <= j < l.name@.len() ==> !(#[trigger] s@[j] == ':' && s@[j + 1] == ' ')
            },
    {
        proof {
            lemma_parse_link_splits_at_first_separator(s@);
        }
        let chars = chars_of(s);
        let n = chars.len();
        let mut i: usize = 0;
        while i < n
            invariant
                n == chars@.len(),
                chars@ == s@,
                i <= n,
                first_separator_from(s@, 0) == first_separator_from(s@, i as int),
            decreases n - i,
        {
            if i + 1 < n && chars[i] == ':' && chars[i + 1] == ' ' {
                let name = s.substring_char(0, i);
                let link = s.substring_char(i + 2, n);
                proof {
                    lemma_parse_link_splits_at_first_separator(s@);
                }
                return Some(Link { name, link });
            }
            i += 1;
        }
        None
    }

    /// Parse a text of lines `name: link` into the `Link`s of its lines, in
    /// order; lines without `": "` are skipped.
    pub fn source_list(sources: &'static str) -> (r: Vec<Self>)
        ensures
            link_views(r@) == source_links(sources@),
    {
        let chars = chars_of(sources);
        let n = chars.len();
        let mut links: Vec<Link> = Vec::new();
        let mut start: usize = 0;
        let ghost mut done: Seq<Seq<char>> = Seq::empty();
        let mut i: usize = 0;
        assert(sources@.take(0) =~= Seq::<char>::empty());
        assert(done.push(sources@.subrange(0, 0)) =~= seq![Seq::<char>::empty()]);
        while i < n
            invariant
                n == chars@.len(),
                chars@ == sources@,
                start <= i <= n,
                split_lines(sources@.take(i as int)) == done.push(
                    sources@.subrange(start as int, i as int),
                ),
                link_views(links@) == links_of_lines(done),
            decreases n - i,
        {
            let ghost before = sources@.take(i as int);
            assert(sources@.take(i + 1).drop_last() =~= before);
            if chars[i] == '\n' {
                let line = sources.substring_char(start, i);
                proof {
                    let prev = done;
                    done = done.push(line@);
                    assert(done.drop_last() =~= prev);
                    assert(sources@.take(i + 1).last() == '\n');
                    assert(sources@.subrange(i + 1, i + 1) =~= Seq::<char>::empty());
                }
                Self::push_parsed(&mut links, line, Ghost(done));
                start = i + 1;
                assert(split_lines(sources@.take(i + 1)) =~= done.push(
                    sources@.subrange(start as int, i + 1),
                ));
            } else {
                let ghost lines = split_lines(before);
                assert(lines.last().push(chars@[i as int]) =~= sources@.subrange(
                    start as int,
                    i + 1,
                ));
                assert(split_lines(sources@.take(i + 1)) =~= done.push(
                    sources@.subrange(start as int, i + 1),
                ));
            }
            i += 1;
        }
        let line = sources.substring_char(start, n);
        proof {
            let prev = done;
            done = done.push(line@);
            assert(done.drop_last() =~= prev);
            assert(sources@.take(n as int) =~= sources@);
        }
        Self::push_parsed(&mut links, line, Ghost(done));
        links
    }

    /// Append the link of `line` to `links` if `line` parses.
    fn push_parsed(links: &mut Vec<Link>, line: &'static str, Ghost(lines): Ghost<Seq<Seq<char>>>)
        requires
            lines.len() > 0,
            lines.last() == line@,
            link_views(old(links)@) == links_of_lines(lines.drop_last()),
        ensures
            link_views(final(links)@) == links_of_lines(lines),
    {
        match Link::make(line) {
            Some(l) => {
                links.push(l);
                assert(link_views(links@) =~= link_views(old(links)@).push(l@));
            },
            None => {},
        }
    }
}


} // verus!
