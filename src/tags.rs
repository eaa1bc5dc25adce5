use vstd::prelude::*;

use crate::error::{Error, ErrorKind};
use crate::text::{
    chars_of, is_white_space, same_chars, split_chars, split_view, string_of, trim_str, trim_view,
    white_space,
};

verus! {

/// The words that cannot be used as tags.
pub open spec fn reserved_word(t: Seq<char>) -> bool {
    t == seq!['n', 'o', 'n', 'e'] || t == seq!['a', 'n', 'y'] || t == seq!['a', 'l', 'l'] || t
        == seq!['a', 'n', 'd'] || t == seq!['o', 'r'] || t == seq!['n', 'o', 't'] || t
        == seq!['|'] || t == seq!['|', '|'] || t == seq!['&'] || t == seq!['&', '&']
}

/// Whether `t` is one of the reserved words.
pub fn is_reserved_word(t: &Vec<char>) -> (r: bool)
    ensures
        r == reserved_word(t@),
{
    let w0 = vec!['n', 'o', 'n', 'e'];
    assert(w0@ == seq!['n', 'o', 'n', 'e']);
    if same_chars(t, &w0) {
        assert(t@ == seq!['n', 'o', 'n', 'e']);
        return true;
    }
    let w1 = vec!['a', 'n', 'y'];
    assert(w1@ == seq!['a', 'n', 'y']);
    if same_chars(t, &w1) {
        assert(t@ == seq!['a', 'n', 'y']);
        return true;
    }
    let w2 = vec!['a', 'l', 'l'];
    assert(w2@ == seq!['a', 'l', 'l']);
    if same_chars(t, &w2) {
        assert(t@ == seq!['a', 'l', 'l']);
        return true;
    }
    let w3 = vec!['a', 'n', 'd'];
    assert(w3@ == seq!['a', 'n', 'd']);
    if same_chars(t, &w3) {
        assert(t@ == seq!['a', 'n', 'd']);
        return true;
    }
    let w4 = vec!['o', 'r'];
    assert(w4@ == seq!['o', 'r']);
    if same_chars(t, &w4) {
        assert(t@ == seq!['o', 'r']);
        return true;
    }
    let w5 = vec!['n', 'o', 't'];
    assert(w5@ == seq!['n', 'o', 't']);
    if same_chars(t, &w5) {
        assert(t@ == seq!['n', 'o', 't']);
        return true;
    }
    let w6 = vec!['|'];
    assert(w6@ == seq!['|']);
    if same_chars(t, &w6) {
        assert(t@ == seq!['|']);
        return true;
    }
    let w7 = vec!['|', '|'];
    assert(w7@ == seq!['|', '|']);
    if same_chars(t, &w7) {
        assert(t@ == seq!['|', '|']);
        return true;
    }
    let w8 = vec!['&'];
    assert(w8@ == seq!['&']);
    if same_chars(t, &w8) {
        assert(t@ == seq!['&']);
        return true;
    }
    let w9 = vec!['&', '&'];
    assert(w9@ == seq!['&', '&']);
    if same_chars(t, &w9) {
        assert(t@ == seq!['&', '&']);
        return true;
    }
    false
}

/// A character that a search tag cannot hold.
pub open spec fn search_forbidden(c: char) -> bool {
    c == '(' || c == ')' || c == '"' || c == '\'' || white_space(c)
}

/// A tag that can stand in a tag expression.
pub open spec fn valid_search_tag(t: Seq<char>) -> bool {
    &&& t.len() > 0
    &&& !reserved_word(t)
    &&& forall|i: int| 0 <= i < t.len() ==> !search_forbidden(#[trigger] t[i])
}

/// A term that forbids its tag: it starts with `!` or `/`.
pub open spec fn excluding_term(t: Seq<char>) -> bool {
    t.len() > 0 && (t[0] == '!' || t[0] == '/')
}

/// The tag that a term names.
pub open spec fn term_tag(t: Seq<char>) -> Seq<char> {
    if excluding_term(t) {
        t.drop_first()
    } else {
        t
    }
}

/// The tags of the requiring terms, in order.
pub open spec fn required_tags(terms: Seq<Seq<char>>) -> Seq<Seq<char>>
    decreases terms.len(),
{
    if terms.len() == 0 {
        Seq::empty()
    } else if excluding_term(terms.last()) {
        required_tags(terms.drop_last())
    } else {
        required_tags(terms.drop_last()).push(terms.last())
    }
}

/// The tags of the forbidding terms, in order.
pub open spec fn excluded_tags(terms: Seq<Seq<char>>) -> Seq<Seq<char>>
    decreases terms.len(),
{
    if terms.len() == 0 {
        Seq::empty()
    } else if excluding_term(terms.last()) {
        excluded_tags(terms.drop_last()).push(terms.last().drop_first())
    } else {
        excluded_tags(terms.drop_last())
    }
}

/// What a tag filter means.
pub enum FilterView {
    Untagged,
    Tagged { require: Seq<Seq<char>>, exclude: Seq<Seq<char>> },
}

/// The literal that selects untagged items.
pub open spec fn none_word() -> Seq<char> {
    seq!['n', 'o', 'n', 'e']
}

/// The terms of a tag expression.
pub open spec fn expression_terms(v: Seq<char>) -> Seq<Seq<char>> {
    split_view(trim_view(v), ',')
}

/// Whether a tag expression parses.
pub open spec fn expression_valid(v: Seq<char>) -> bool {
    trim_view(v) == none_word() || forall|i: int|
        0 <= i < expression_terms(v).len() ==> valid_search_tag(
            term_tag(#[trigger] expression_terms(v)[i]),
        )
}

/// The filter that a valid tag expression denotes.
pub open spec fn expression_filter(v: Seq<char>) -> FilterView {
    if trim_view(v) == none_word() {
        FilterView::Untagged
    } else {
        FilterView::Tagged {
            require: required_tags(expression_terms(v)),
            exclude: excluded_tags(expression_terms(v)),
        }
    }
}

/// Whether a filter admits an item that carries the tags `tags`.
pub open spec fn filter_matches(f: FilterView, tags: Set<Seq<char>>) -> bool {
    match f {
        FilterView::Untagged => tags.is_empty(),
        FilterView::Tagged { require: rq, exclude: ex } => (forall|i: int|
            0 <= i < rq.len() ==> tags.contains(#[trigger] rq[i])) && (forall|i: int|
            0 <= i < ex.len() ==> !tags.contains(#[trigger] ex[i])),
    }
}

/// The views of a list of strings.
pub open spec fn string_views(v: Seq<String>) -> Seq<Seq<char>> {
    v.map_values(|s: String| s@)
}

/// The set of tags held in a list of strings.
pub open spec fn tag_set(v: Seq<String>) -> Set<Seq<char>> {
    string_views(v).to_set()
}

/// A predicate over the tags of a task or a job.
#[derive(Debug)]
pub enum TagFilter {
    /// Admits only items without tags.
    Untagged,
    /// Admits items that carry every tag of `require` and none of `exclude`.
    Tagged { require: Vec<String>, exclude: Vec<String> },
}

impl View for TagFilter {
    type V = FilterView;

    open spec fn view(&self) -> FilterView {
        match self {
            TagFilter::Untagged => FilterView::Untagged,
            TagFilter::Tagged { require, exclude } => FilterView::Tagged {
                require: string_views(require@),
                exclude: string_views(exclude@),
            },
        }
    }
}

/// `v` without its first character.
fn drop_first_char(v: &Vec<char>) -> (r: Vec<char>)
    requires
        v.len() > 0,
    ensures
        r@ == v@.drop_first(),
{
    let mut r: Vec<char> = Vec::new();
    let mut i: usize = 1;
    while i < v.len()
        invariant
            1 <= i <= v.len(),
            r@ == v@.subrange(1, i as int),
        decreases v.len() - i,
    {
        r.push(v[i]);
        i = i + 1;
    }
    r
}

/// Whether `s` holds a string equal to `t`.
pub fn holds_string(s: &Vec<String>, t: &String) -> (r: bool)
    ensures
        r == tag_set(s@).contains(t@),
{
    let mut i: usize = 0;
    while i < s.len()
        invariant
            0 <= i <= s.len(),
            forall|j: int| 0 <= j < i ==> s@[j]@ != t@,
        decreases s.len() - i,
    {
        if s[i] == *t {
            assert(string_views(s@)[i as int] == t@);
            return true;
        }
        i = i + 1;
    }
    assert forall|j: int| 0 <= j < string_views(s@).len() implies string_views(s@)[j] != t@ by {
        assert(string_views(s@)[j] == s@[j]@);
    }
    false
}

impl TagFilter {
    /// Parses a tag expression: `none`, or comma-separated terms `tag`,
    /// `!tag` or `/tag`. Surrounding white space is ignored.
    pub fn parse(value: &str) -> (r: Result<TagFilter, Error>)
        ensures
            r is Ok <==> expression_valid(value@),
            r is Ok ==> r->Ok_0@ == expression_filter(value@),
            r matches Err(e) ==> e.kind == ErrorKind::Other,
    {
        let trimmed = trim_str(value);
        let cs = chars_of(trimmed);
        let none = vec!['n', 'o', 'n', 'e'];
        assert(none@ == none_word());
        if same_chars(&cs, &none) {
            return Ok(TagFilter::Untagged);
        }
        let terms = split_chars(&cs, ',');
        let ghost tv = terms@.map_values(|p: Vec<char>| p@);
        assert(tv == expression_terms(value@));
        let mut require: Vec<String> = Vec::new();
        let mut exclude: Vec<String> = Vec::new();
        let mut i: usize = 0;
        while i < terms.len()
            invariant
                trim_view(value@) != none_word(),
                tv == terms@.map_values(|p: Vec<char>| p@),
                tv == expression_terms(value@),
                0 <= i <= terms.len(),
                forall|j: int| 0 <= j < i ==> valid_search_tag(term_tag(#[trigger] tv[j])),
                string_views(require@) == required_tags(tv.subrange(0, i as int)),
                string_views(exclude@) == excluded_tags(tv.subrange(0, i as int)),
            decreases terms.len() - i,
        {
            let term = &terms[i];
            let ghost sub = tv.subrange(0, i + 1);
            assert(sub.drop_last() == tv.subrange(0, i as int));
            assert(sub.last() == term@);
            if term.len() > 0 && (term[0] == '!' || term[0] == '/') {
                let tag = drop_first_char(term);
                if let Err(e) = Self::check_tag(&tag) {
                    assert(expression_terms(value@)[i as int] == term@);
                    assert(!valid_search_tag(term_tag(expression_terms(value@)[i as int])));
                    return Err(e);
                }
                let s = string_of(&tag);
                let ghost old_ex = exclude@;
                exclude.push(s);
                assert(string_views(exclude@) == string_views(old_ex).push(s@));
            } else {
                if let Err(e) = Self::check_tag(term) {
                    assert(expression_terms(value@)[i as int] == term@);
                    assert(!valid_search_tag(term_tag(expression_terms(value@)[i as int])));
                    return Err(e);
                }
                let s = string_of(term);
                let ghost old_req = require@;
                require.push(s);
                assert(string_views(require@) == string_views(old_req).push(s@));
            }
            i = i + 1;
        }
        assert(tv.subrange(0, tv.len() as int) == tv);
        Ok(TagFilter::Tagged { require, exclude })
    }

    /// Whether the filter admits an item that carries `item_tags`.
    pub fn matches(&self, item_tags: &Vec<String>) -> (r: bool)
        ensures
            r == filter_matches(self@, tag_set(item_tags@)),
    {
        match self {
            TagFilter::Untagged => {
                proof {
                    if item_tags@.len() > 0 {
                        assert(tag_set(item_tags@).contains(string_views(item_tags@)[0]));
                    } else {
                        assert(tag_set(item_tags@) =~= Set::empty());
                    }
                }
                item_tags.len() == 0
            },
            TagFilter::Tagged { require, exclude } => {
                let ghost fv = self@;
                assert(fv->require == string_views(require@));
                assert(fv->exclude == string_views(exclude@));
                let mut i: usize = 0;
                while i < require.len()
                    invariant
                        fv == self@,
                        fv is Tagged,
                        fv->require == string_views(require@),
                        fv->exclude == string_views(exclude@),
                        0 <= i <= require.len(),
                        forall|j: int|
                            0 <= j < i ==> tag_set(item_tags@).contains(
                                #[trigger] string_views(require@)[j],
                            ),
                    decreases require.len() - i,
                {
                    assert(string_views(require@)[i as int] == require@[i as int]@);
                    if !holds_string(item_tags, &require[i]) {
                        assert(!tag_set(item_tags@).contains(string_views(require@)[i as int]));
                        assert(string_views(require@).len() == require@.len());
                        assert(filter_matches(fv, tag_set(item_tags@)) ==> tag_set(item_tags@).contains(
                            fv->require[i as int],
                        ));
                        return false;
                    }
                    i = i + 1;
                }
                let mut k: usize = 0;
                while k < exclude.len()
                    invariant
                        fv == self@,
                        fv is Tagged,
                        fv->require == string_views(require@),
                        fv->exclude == string_views(exclude@),
                        0 <= k <= exclude.len(),
                        forall|j: int|
                            0 <= j < require.len() ==> tag_set(item_tags@).contains(
                                #[trigger] string_views(require@)[j],
                            ),
                        forall|j: int|
                            0 <= j < k ==> !tag_set(item_tags@).contains(
                                #[trigger] string_views(exclude@)[j],
                            ),
                    decreases exclude.len() - k,
                {
                    assert(string_views(exclude@)[k as int] == exclude@[k as int]@);
                    if holds_string(item_tags, &exclude[k]) {
                        assert(tag_set(item_tags@).contains(string_views(exclude@)[k as int]));
                        assert(string_views(exclude@).len() == exclude@.len());
                        assert(filter_matches(fv, tag_set(item_tags@)) ==> !tag_set(item_tags@).contains(
                            fv->exclude[k as int],
                        ));
                        return false;
                    }
                    k = k + 1;
                }
                true
            },
        }
    }

    /// Accepts a tag of a tag expression, or says why it cannot stand there.
    fn check_tag(tag: &Vec<char>) -> (r: Result<(), Error>)
        ensures
            r is Ok <==> valid_search_tag(tag@),
            r matches Err(e) ==> e.kind == ErrorKind::Other,
    {
        if tag.len() == 0 {
            return Err(Error::other("found empty string tag in project"));
        }
        if is_reserved_word(tag) {
            return Err(Error::other("use a reserved word as a search tag"));
        }
        let mut i: usize = 0;
        while i < tag.len()
            invariant
                0 <= i <= tag.len(),
                forall|j: int| 0 <= j < i ==> !search_forbidden(#[trigger] tag@[j]),
            decreases tag.len() - i,
        {
            let c = tag[i];
            if c == '(' || c == ')' || c == '"' || c == '\'' || is_white_space(c) {
                assert(search_forbidden(tag@[i as int]));
                return Err(Error::other("invalid tag: parentheses, quotes or white space"));
            }
            i = i + 1;
        }
        Ok(())
    }
}

/// An expression's filter admits the empty tag set exactly when it is
/// `Untagged` or requires no tag; and it rejects any tag set that lacks a
/// required tag or holds a forbidden one.
pub proof fn lemma_filter_laws(f: FilterView, tags: Set<Seq<char>>)
    ensures
        filter_matches(f, Set::empty()) <==> (match f {
            FilterView::Untagged => true,
            FilterView::Tagged { require, exclude } => require.len() == 0,
        }),
        (match f {
            FilterView::Untagged => false,
            FilterView::Tagged { require, exclude } => (exists|i: int|
                0 <= i < require.len() && !tags.contains(#[trigger] require[i])) || (exists|i: int|
                0 <= i < exclude.len() && tags.contains(#[trigger] exclude[i])),
        }) ==> !filter_matches(f, tags),
{
    match f {
        FilterView::Untagged => {},
        FilterView::Tagged { require, exclude } => {
            if require.len() > 0 {
                assert(!Set::<Seq<char>>::empty().contains(require[0]));
            }
        },
    }
}

} // verus!
