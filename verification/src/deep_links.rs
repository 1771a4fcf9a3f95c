//! The links under which the library, and a request on it, can be reached
//! from outside.

use crate::models::library_with_filters::LibraryRequest;
use crate::models::library_with_filters::LibraryRequestPage;
use crate::models::library_with_filters::LibraryRequestView;
use crate::models::library_with_filters::Sort;
use crate::text::chars_of;
use crate::text::decimal;
use crate::text::decimal_from;
use crate::text::decimal_of;
use crate::text::lemma_decimal_injective;
use vstd::prelude::*;
use vstd::std_specs::convert::FromSpecImpl;

verus! {

/// The word that stands for an order in a link.
pub open spec fn sort_token(sort: Sort) -> Seq<char> {
    match sort {
        Sort::LastWatched => "lastwatched"@,
        Sort::Name => "name"@,
        Sort::Watched => "watched"@,
        Sort::NotWatched => "notwatched"@,
    }
}

/// What stands in a request as text between its type and its page.
pub open spec fn sort_part(sort: Sort) -> Seq<char> {
    "?sort="@ + sort_token(sort) + "&page="@
}

/// The part of a link that names the order and the page of a request.
pub open spec fn request_query(request: LibraryRequestView) -> Seq<char> {
    sort_part(request.sort) + decimal(request.page)
}

/// A request as text: its type, where it has one, and then its order and its
/// page.
pub open spec fn request_path(request: LibraryRequestView) -> Seq<char> {
    match request.type_ {
        Some(tag) => tag + request_query(request),
        None => request_query(request),
    }
}

/// The link to the library that is called `root`.
pub open spec fn library_link(root: Seq<char>) -> Seq<char> {
    "stremio:///"@ + root
}

/// The link to a request on the library that is called `root`.
pub open spec fn request_link(root: Seq<char>, request: LibraryRequestView) -> Seq<char> {
    match request.type_ {
        Some(tag) => library_link(root) + "/"@ + request_path(request),
        None => library_link(root) + request_path(request),
    }
}

/// The word that stands for an order in a link.
fn sort_word(sort: Sort) -> (word: &'static str)
    ensures
        word@ == sort_token(sort),
{
    match sort {
        Sort::LastWatched => "lastwatched",
        Sort::Name => "name",
        Sort::Watched => "watched",
        Sort::NotWatched => "notwatched",
    }
}

/// Writes the part of a link that names the order and the page of `request`
/// behind `text`.
fn append_query(text: &mut String, request: &LibraryRequest)
    ensures
        final(text)@ == old(text)@ + request_query(request@),
{
    let ghost before = text@;
    text.append("?sort=");
    text.append(sort_word(request.sort));
    text.append("&page=");
    text.append(decimal_of(request.page.get()).as_str());
    assert(text@ =~= before + request_query(request@));
}

/// Writes a request as text: its type, where it has one, and then its order
/// and its page.
pub fn request_to_path(request: &LibraryRequest) -> (path: String)
    ensures
        path@ == request_path(request@),
{
    let mut path = match &request.type_ {
        Some(tag) => tag.clone(),
        None => String::new(),
    };
    append_query(&mut path, request);
    assert(Seq::<char>::empty() + request_query(request@) =~= request_query(request@));
    path
}

/// Whether a request can be read back from the text that it is written as:
/// its page is one that the machine can hold, and its type, where it has one,
/// is not empty and holds no question mark.
pub open spec fn is_linkable(request: LibraryRequestView) -> bool {
    &&& 1 <= request.page <= usize::MAX
    &&& request.type_ matches Some(tag) ==> tag.len() > 0 && !tag.contains('?')
}

/// The type of a request as it stands in its text: nothing where it has none.
pub open spec fn type_part(request: LibraryRequestView) -> Seq<char> {
    match request.type_ {
        Some(tag) => tag,
        None => Seq::empty(),
    }
}

/// The text of a request in its three parts: the type is what stands before
/// the first question mark, then come the order and the page.
pub proof fn lemma_request_path_parts(request: LibraryRequestView)
    requires
        is_linkable(request),
    ensures
        request_path(request) == type_part(request) + sort_part(request.sort) + decimal(
            request.page,
        ),
        !type_part(request).contains('?'),
        sort_part(request.sort).len() > 0,
        sort_part(request.sort)[0] == '?',
        request.type_ is Some <==> type_part(request).len() > 0,
{
    reveal_strlit("?sort=");
    assert(request_path(request) =~= type_part(request) + sort_part(request.sort) + decimal(
        request.page,
    ));
    assert(sort_part(request.sort)[0] == "?sort="@[0]);
}

/// The order of a request can be told from what stands behind its type.
pub proof fn lemma_sort_part_decides(a: Sort, b: Sort, x: Seq<char>, y: Seq<char>)
    requires
        sort_part(a) + x == sort_part(b) + y,
    ensures
        a == b,
{
    reveal_strlit("?sort=");
    reveal_strlit("&page=");
    reveal_strlit("lastwatched");
    reveal_strlit("name");
    reveal_strlit("watched");
    reveal_strlit("notwatched");
    let left = sort_part(a) + x;
    let right = sort_part(b) + y;
    assert(sort_part(a).len() >= 16);
    assert(sort_part(b).len() >= 16);
    assert(left[6] == sort_part(a)[6] && right[6] == sort_part(b)[6]);
    assert(left[7] == sort_part(a)[7] && right[7] == sort_part(b)[7]);
    assert(sort_part(a)[6] == sort_token(a)[0] && sort_part(a)[7] == sort_token(a)[1]);
    assert(sort_part(b)[6] == sort_token(b)[0] && sort_part(b)[7] == sort_token(b)[1]);
}

/// Two requests that are written as the same text are the same request.
pub proof fn lemma_request_path_injective(a: LibraryRequestView, b: LibraryRequestView)
    requires
        is_linkable(a),
        is_linkable(b),
        request_path(a) == request_path(b),
    ensures
        a == b,
{
    lemma_request_path_parts(a);
    lemma_request_path_parts(b);
    let path = request_path(a);
    let ta = type_part(a);
    let tb = type_part(b);
    assert(path[ta.len() as int] == '?');
    assert(path[tb.len() as int] == '?');
    if ta.len() < tb.len() {
        assert(tb[ta.len() as int] == '?');
    }
    if tb.len() < ta.len() {
        assert(ta[tb.len() as int] == '?');
    }
    assert(ta =~= path.take(ta.len() as int));
    assert(tb =~= path.take(tb.len() as int));
    let rest = path.skip(ta.len() as int);
    assert(rest =~= sort_part(a.sort) + decimal(a.page));
    assert(rest =~= sort_part(b.sort) + decimal(b.page));
    lemma_sort_part_decides(a.sort, b.sort, decimal(a.page), decimal(b.page));
    assert(decimal(a.page) =~= rest.skip(sort_part(a.sort).len() as int));
    assert(decimal(b.page) =~= rest.skip(sort_part(b.sort).len() as int));
    lemma_decimal_injective(a.page, b.page);
}

/// The place of the first question mark among `chars`, if there is one.
fn first_question_mark(chars: &Vec<char>) -> (place: Option<usize>)
    ensures
        place matches Some(q) ==> q < chars.len() && chars@[q as int] == '?' && !chars@.take(
            q as int,
        ).contains('?'),
        place is None ==> !chars@.contains('?'),
{
    let mut q: usize = 0;
    while q < chars.len()
        invariant
            q <= chars.len(),
            forall|i: int| 0 <= i < q ==> chars@[i] != '?',
        decreases chars.len() - q,
    {
        if chars[q] == '?' {
            return Some(q);
        }
        q = q + 1;
    }
    None
}

/// Whether `word` stands among `chars` from the place `at` on.
fn stands_at(chars: &Vec<char>, at: usize, word: &Vec<char>) -> (stands: bool)
    requires
        at <= chars.len(),
    ensures
        stands == (at + word.len() <= chars.len() && chars@.subrange(
            at as int,
            at + word.len(),
        ) == word@),
{
    if word.len() > chars.len() - at {
        return false;
    }
    let mut j: usize = 0;
    while j < word.len()
        invariant
            j <= word.len(),
            at + word.len() <= chars.len(),
            forall|i: int| 0 <= i < j ==> chars@[at + i] == word@[i],
        decreases word.len() - j,
    {
        if chars[at + j] != word[j] {
            assert(chars@.subrange(at as int, at + word.len())[j as int] != word@[j as int]);
            return false;
        }
        j = j + 1;
    }
    assert(chars@.subrange(at as int, at + word.len()) =~= word@);
    true
}

/// What stands in a request as text between its type and its page.
fn sort_part_of(sort: Sort) -> (part: Vec<char>)
    ensures
        part@ == sort_part(sort),
{
    let mut part = String::from_str("?sort=");
    part.append(sort_word(sort));
    part.append("&page=");
    chars_of(part.as_str())
}

/// Reads a request from the text that it is written as. There is a request
/// exactly where the text is one that a request is written as, and then it is
/// that request.
pub fn request_from_path(path: &str) -> (request: Option<LibraryRequest>)
    ensures
        request matches Some(r) ==> request_path(r@) == path@ && is_linkable(r@),
        forall|r: LibraryRequestView|
            is_linkable(r) && #[trigger] request_path(r) == path@ ==> (request matches Some(found)
                && found@ == r),
{
    let chars = chars_of(path);
    let q = match first_question_mark(&chars) {
        Some(q) => q,
        None => {
            proof {
                assert forall|r: LibraryRequestView|
                    is_linkable(r) && #[trigger] request_path(r) == path@ implies false by {
                    lemma_request_path_parts(r);
                    assert(path@[type_part(r).len() as int] == '?');
                }
            }
            return None;
        },
    };
    proof {
        assert forall|r: LibraryRequestView|
            is_linkable(r) && #[trigger] request_path(r) == path@ implies type_part(r)
            == path@.take(q as int) by {
            lemma_request_path_parts(r);
            let t = type_part(r);
            assert(path@[t.len() as int] == '?');
            if t.len() < q {
                assert(path@.take(q as int)[t.len() as int] == '?');
            }
            if q < t.len() {
                assert(t[q as int] == '?');
            }
            assert(t =~= path@.take(q as int));
        }
    }
    let sorts = Sort::iter();
    let mut k: usize = 0;
    while k < sorts.len()
        invariant
            k <= sorts.len(),
            sorts@ == Sort::all(),
            chars@ == path@,
            q < chars.len(),
            !chars@.take(q as int).contains('?'),
            forall|r: LibraryRequestView|
                is_linkable(r) && #[trigger] request_path(r) == path@ ==> type_part(r)
                    == path@.take(q as int),
            forall|r: LibraryRequestView, i: int|
                is_linkable(r) && #[trigger] request_path(r) == path@ && 0 <= i < k
                    ==> r.sort != #[trigger] sorts@[i],
        decreases sorts.len() - k,
    {
        let sort = sorts[k];
        let part = sort_part_of(sort);
        let fits = stands_at(&chars, q, &part);
        let number = if fits {
            decimal_from(&chars, q + part.len())
        } else {
            None
        };
        let page = match number {
            Some(n) => LibraryRequestPage::new(n),
            None => None,
        };
        match page {
            Some(page) => {
                let type_ = if q == 0 {
                    None
                } else {
                    Some(String::from_str(path.substring_char(0, q)))
                };
                let found = LibraryRequest { type_, sort, page };
                proof {
                    let tag = path@.take(q as int);
                    assert(path@.subrange(0, q as int) =~= tag);
                    assert(path@ =~= tag + chars@.subrange(q as int, q + part.len())
                        + chars@.skip(q + part.len()));
                    assert(request_path(found@) =~= path@);
                    assert forall|r: LibraryRequestView|
                        is_linkable(r) && #[trigger] request_path(r) == path@ implies found@
                        == r by {
                        lemma_request_path_injective(found@, r);
                    }
                }
                return Some(found);
            },
            None => {
                proof {
                    assert forall|r: LibraryRequestView|
                        is_linkable(r) && #[trigger] request_path(r) == path@ implies r.sort
                        != sort by {
                        if r.sort == sort {
                            lemma_request_path_parts(r);
                            let tag = path@.take(q as int);
                            assert(path@ =~= tag + sort_part(sort) + decimal(r.page));
                            assert(chars@.subrange(q as int, q + part.len()) =~= part@);
                            assert(chars@.skip(q + part.len()) =~= decimal(r.page));
                            assert(fits);
                            assert(number is Some);
                            lemma_decimal_injective(number->0 as nat, r.page);
                        }
                    }
                }
            },
        }
        k = k + 1;
    }
    proof {
        assert forall|r: LibraryRequestView|
            is_linkable(r) && #[trigger] request_path(r) == path@ implies false by {
            let i = if r.sort == Sort::LastWatched {
                0int
            } else if r.sort == Sort::Name {
                1int
            } else if r.sort == Sort::Watched {
                2int
            } else {
                3int
            };
            assert(sorts@[i] == r.sort);
        }
    }
    None
}

/// The links that lead to the library.
#[derive(Debug)]
pub struct LibraryDeepLinks {
    pub library: String,
}

impl From<&String> for LibraryDeepLinks {
    /// The link to the library that is called `root`.
    fn from(root: &String) -> (links: LibraryDeepLinks)
        ensures
            links.library@ == library_link(root@),
    {
        let mut library = String::from_str("stremio:///");
        library.append(root.as_str());
        LibraryDeepLinks { library }
    }
}

impl FromSpecImpl<&String> for LibraryDeepLinks {
    open spec fn obeys_from_spec() -> bool {
        false
    }

    open spec fn from_spec(root: &String) -> LibraryDeepLinks {
        arbitrary()
    }
}

impl From<(&String, &LibraryRequest)> for LibraryDeepLinks {
    /// The link to a request on the library that is called `root`.
    fn from(asked: (&String, &LibraryRequest)) -> (links: LibraryDeepLinks)
        ensures
            links.library@ == request_link(asked.0@, asked.1@),
    {
        let (root, request) = asked;
        let mut library = String::from_str("stremio:///");
        library.append(root.as_str());
        match &request.type_ {
            Some(tag) => {
                library.append("/");
                library.append(tag.as_str());
            },
            None => {},
        }
        append_query(&mut library, request);
        assert(library@ =~= request_link(root@, request@));
        LibraryDeepLinks { library }
    }
}

impl FromSpecImpl<(&String, &LibraryRequest)> for LibraryDeepLinks {
    open spec fn obeys_from_spec() -> bool {
        false
    }

    open spec fn from_spec(asked: (&String, &LibraryRequest)) -> LibraryDeepLinks {
        arbitrary()
    }
}

} // verus!
