//! Filtering a list of files by a query: by file name first, then by tag.
use vstd::prelude::*;
use vstd::string::*;

verus! {

/// How a file answers a query.
#[derive(Clone, Copy, Debug, PartialEq, Eq, Structural)]
pub enum SearchResult {
    NoMatch,
    Name,
    Tag,
}

/// A character's code point after ASCII lower-casing.
pub open spec fn fold(c: char) -> int {
    if 65 <= (c as int) <= 90 {
        c as int + 32
    } else {
        c as int
    }
}

/// `needle` occurs in `hay` at position `i`, ignoring ASCII case.
pub open spec fn matches_at(hay: Seq<char>, needle: Seq<char>, i: int) -> bool {
    forall|j: int| 0 <= j < needle.len() ==> fold(#[trigger] hay[i + j]) == fold(needle[j])
}

/// `needle` occurs somewhere in `hay`, ignoring ASCII case.
pub open spec fn contains_folded(hay: Seq<char>, needle: Seq<char>) -> bool {
    exists|i: int| 0 <= i && i + needle.len() <= hay.len() && #[trigger] matches_at(hay, needle, i)
}

/// How a file with this name (where it has one) and these tags answers `query`.
pub open spec fn search_spec(
    file_name: Option<Seq<char>>,
    tags: Seq<String>,
    query: Seq<char>,
) -> SearchResult {
    if file_name matches Some(n) && contains_folded(n, query) {
        SearchResult::Name
    } else if exists|k: int| 0 <= k < tags.len() && contains_folded((#[trigger] tags[k])@, query) {
        SearchResult::Tag
    } else {
        SearchResult::NoMatch
    }
}

fn fold_exec(c: char) -> (r: u32)
    ensures
        r as int == fold(c),
{
    let x = c as u32;
    if 65 <= x && x <= 90 {
        x + 32
    } else {
        x
    }
}

fn chars_of(s: &str) -> (r: Vec<char>)
    ensures
        r@ == s@,
{
    let n = s.unicode_len();
    let mut r: Vec<char> = Vec::new();
    let mut i: usize = 0;
    while i < n
        invariant
            n == s@.len(),
            i <= n,
            r@ == s@.subrange(0, i as int),
        decreases n - i,
    {
        r.push(s.get_char(i));
        i += 1;
        assert(r@ =~= s@.subrange(0, i as int));
    }
    r
}

/// Whether `needle` occurs in `hay` when ASCII letters are compared without case.
pub fn contains_ignore_ascii_case(hay: &str, needle: &str) -> (r: bool)
    ensures
        r == contains_folded(hay@, needle@),
{
    let h = chars_of(hay);
    let q = chars_of(needle);
    if q.len() > h.len() {
        return false;
    }
    let hl = h.len();
    let last = hl - q.len();
    let mut i: usize = 0;
    while i <= last
        invariant
            h@ == hay@,
            q@ == needle@,
            q@.len() <= h@.len(),
            last == h@.len() - q@.len(),
            hl == h@.len(),
            i <= last + 1,
            forall|k: int| 0 <= k < i ==> !#[trigger] matches_at(h@, q@, k),
        decreases last + 1 - i,
    {
        let mut j: usize = 0;
        let mut agree = true;
        while agree && j < q.len()
            invariant
                h@ == hay@,
                q@ == needle@,
                q@.len() <= h@.len(),
                i <= last,
                last == h@.len() - q@.len(),
                hl == h@.len(),
                j <= q@.len(),
                forall|t: int| 0 <= t < j ==> fold(#[trigger] h@[i + t]) == fold(q@[t]),
                !agree ==> j < q@.len() && fold(h@[i + j]) != fold(q@[j as int]),
            decreases q@.len() - j + if agree { 1int } else { 0int },
        {
            if fold_exec(h[i + j]) == fold_exec(q[j]) {
                j += 1;
            } else {
                agree = false;
            }
        }
        if j == q.len() {
            assert(matches_at(h@, q@, i as int));
            return true;
        }
        assert(!matches_at(h@, q@, i as int)) by {
            assert(fold(h@[i + j]) != fold(q@[j as int]));
        }
        i += 1;
    }
    false
}

/// How a file answers a query: `Name` where its name holds the query, else
/// `Tag` where one of its tags does, else `NoMatch`. ASCII case is ignored.
pub fn search_result(file_name: Option<&str>, tags: &Vec<String>, query: &str) -> (r: SearchResult)
    ensures
        r == search_spec(
            match file_name {
                Some(n) => Some(n@),
                None => None,
            },
            tags@,
            query@,
        ),
{
    let ghost name_view = match file_name {
        Some(n) => Some(n@),
        None => None,
    };
    if let Some(name) = file_name {
        if contains_ignore_ascii_case(name, query) {
            return SearchResult::Name;
        }
    }
    assert(!(name_view matches Some(n) && contains_folded(n, query@)));
    let mut k: usize = 0;
    while k < tags.len()
        invariant
            k <= tags@.len(),
            !(name_view matches Some(n) && contains_folded(n, query@)),
            name_view == match file_name {
                Some(n) => Some(n@),
                None => None,
            },
            forall|t: int| 0 <= t < k ==> !contains_folded((#[trigger] tags@[t])@, query@),
        decreases tags@.len() - k,
    {
        if contains_ignore_ascii_case(tags[k].as_str(), query) {
            assert(contains_folded(tags@[k as int]@, query@));
            return SearchResult::Tag;
        }
        k += 1;
    }
    SearchResult::NoMatch
}

} // verus!
