//! The computational half of the metadata enrichment step: building the two
//! catalog queries, choosing the follow-up after the search, and applying a
//! detail result to a book. The fetches themselves are network I/O and live
//! with the caller; on any failure there the book is kept unchanged.

use vstd::prelude::*;
use vstd::string::StringExecFns;
use crate::model::{Book, BookV};

verus! {

/// The catalog identifier schemes a volume's identifiers may carry.
#[derive(Clone, Copy, Debug, PartialEq, Eq, Structural)]
pub enum IsbnKind {
    Isbn13,
    Isbn10,
}

/// One industry identifier of a catalog volume.
#[derive(Clone, Debug)]
pub struct IndustryId {
    pub kind: IsbnKind,
    pub identifier: String,
}

impl View for IndustryId {
    type V = (IsbnKind, Seq<char>);

    open spec fn view(&self) -> (IsbnKind, Seq<char>) {
        (self.kind, self.identifier@)
    }
}

impl DeepView for IndustryId {
    type V = (IsbnKind, Seq<char>);

    open spec fn deep_view(&self) -> (IsbnKind, Seq<char>) {
        self.view()
    }
}

/// The fields consumed from a catalog volume's detail document.
#[derive(Clone, Debug)]
pub struct VolumeInfo {
    pub title: String,
    pub authors: Vec<String>,
    pub ids: Vec<IndustryId>,
}

/// One `+inauthor:` term per author, in order.
pub open spec fn author_terms(authors: Seq<Seq<char>>) -> Seq<char>
    decreases authors.len(),
{
    if authors.len() == 0 {
        Seq::<char>::empty()
    } else {
        "+inauthor:"@.add(authors[0]).add(author_terms(authors.drop_first()))
    }
}

pub proof fn lemma_author_terms_push(authors: Seq<Seq<char>>, x: Seq<char>)
    ensures
        author_terms(authors.push(x)) == author_terms(authors).add("+inauthor:"@).add(x),
    decreases authors.len(),
{
    let p = authors.push(x);
    assert(author_terms(Seq::<Seq<char>>::empty()) == Seq::<char>::empty());
    if authors.len() == 0 {
        assert(p[0] == x);
        assert(p.drop_first() =~= Seq::<Seq<char>>::empty());
        assert(author_terms(p) =~= author_terms(authors).add("+inauthor:"@).add(x));
    } else {
        assert(p[0] == authors[0]);
        assert(p.drop_first() =~= authors.drop_first().push(x));
        lemma_author_terms_push(authors.drop_first(), x);
        assert(author_terms(p) =~= author_terms(authors).add("+inauthor:"@).add(x));
    }
}

/// The catalog search query for a book: every author as an `+inauthor:` term,
/// the title as an `+intitle:` term, asking for the results' self-links only.
pub open spec fn spec_search_url(b: BookV) -> Seq<char> {
    "https://www.googleapis.com/books/v1/volumes?q="@.add(author_terms(b.authors)).add(
        "+intitle:"@,
    ).add(b.title).add("&fields=items/selfLink"@)
}

/// The detail query for a search result's self-link, asking only for the
/// fields the enrichment consumes.
pub open spec fn spec_detail_url(link: Seq<char>) -> Seq<char> {
    link.add("?fields=volumeInfo(title,authors,industryIdentifiers,imageLinks)"@)
}

/// Build the catalog search query for `b`.
pub fn search_url(b: &Book) -> (r: String)
    ensures
        r@ == spec_search_url(b@),
{
    let mut url = String::new();
    url.append("https://www.googleapis.com/books/v1/volumes?q=");
    let ghost base = "https://www.googleapis.com/books/v1/volumes?q="@;
    let n = b.authors.len();
    let mut i: usize = 0;
    proof {
        assert(b.authors.deep_view().subrange(0, 0) =~= Seq::<Seq<char>>::empty());
    }
    while i < n
        invariant
            i <= n,
            n == b.authors@.len(),
            base == "https://www.googleapis.com/books/v1/volumes?q="@,
            url@ == base.add(author_terms(b.authors.deep_view().subrange(0, i as int))),
        decreases n - i,
    {
        url.append("+inauthor:");
        url.append(b.authors[i].as_str());
        i += 1;
        proof {
            let dv = b.authors.deep_view();
            assert(dv[i - 1] == b.authors@[i - 1]@);
            assert(dv.subrange(0, i as int) =~= dv.subrange(0, i - 1).push(dv[i - 1]));
            lemma_author_terms_push(dv.subrange(0, i - 1), dv[i - 1]);
        }
    }
    proof {
        assert(b.authors.deep_view().subrange(0, n as int) =~= b.authors.deep_view());
    }
    url.append("+intitle:");
    url.append(b.title.as_str());
    url.append("&fields=items/selfLink");
    url
}

/// Build the detail query for a self-link.
pub fn detail_url(link: &str) -> (r: String)
    ensures
        r@ == spec_detail_url(link@),
{
    let mut url = String::new();
    url.append(link);
    url.append("?fields=volumeInfo(title,authors,industryIdentifiers,imageLinks)");
    url
}

/// The identifier of the first entry tagged with the 13-digit ISBN scheme;
/// empty when there is none.
pub open spec fn spec_first_isbn13(ids: Seq<(IsbnKind, Seq<char>)>) -> Seq<char>
    decreases ids.len(),
{
    if ids.len() == 0 {
        Seq::<char>::empty()
    } else if ids[0].0 == IsbnKind::Isbn13 {
        ids[0].1
    } else {
        spec_first_isbn13(ids.drop_first())
    }
}

/// Scan a volume's identifiers for the first 13-digit ISBN.
pub fn first_isbn13(ids: &Vec<IndustryId>) -> (r: String)
    ensures
        r@ == spec_first_isbn13(ids.deep_view()),
{
    let n = ids.len();
    let ghost dv = ids.deep_view();
    let mut i: usize = 0;
    proof {
        assert(dv.subrange(0, n as int) =~= dv);
    }
    while i < n
        invariant
            i <= n,
            n == ids@.len(),
            dv == ids.deep_view(),
            dv.len() == n as int,
            spec_first_isbn13(dv) == spec_first_isbn13(dv.subrange(i as int, n as int)),
        decreases n - i,
    {
        proof {
            assert(dv[i as int] == ids@[i as int]@);
            assert(dv.subrange(i as int, n as int)[0] == dv[i as int]);
            assert(dv.subrange(i as int, n as int).drop_first() =~= dv.subrange(
                i as int + 1,
                n as int,
            ));
        }
        if ids[i].kind == IsbnKind::Isbn13 {
            return ids[i].identifier.clone();
        }
        i += 1;
    }
    proof {
        assert(dv.subrange(n as int, n as int) =~= Seq::<(IsbnKind, Seq<char>)>::empty());
    }
    String::new()
}

fn clone_strings(v: &Vec<String>) -> (r: Vec<String>)
    ensures
        r.deep_view() == v.deep_view(),
{
    let n = v.len();
    let mut r: Vec<String> = Vec::new();
    let mut i: usize = 0;
    while i < n
        invariant
            i <= n,
            n == v@.len(),
            r@.len() == i as int,
            r.deep_view() == v.deep_view().subrange(0, i as int),
        decreases n - i,
    {
        let ghost prev = r.deep_view();
        r.push(v[i].clone());
        i += 1;
        proof {
            assert(r.deep_view().len() == r@.len());
            assert forall|j: int| 0 <= j < i implies r.deep_view()[j] == v.deep_view()[j] by {
                assert(r.deep_view()[j] == r@[j]@);
                assert(v.deep_view()[j] == v@[j]@);
                if j < i - 1 {
                    assert(r@[j]@ == prev[j]);
                    assert(prev[j] == v.deep_view()[j]);
                }
            }
            assert(r.deep_view() =~= v.deep_view().subrange(0, i as int));
        }
    }
    proof {
        assert(v.deep_view().subrange(0, n as int) =~= v.deep_view());
    }
    r
}

/// Decide the follow-up after the catalog search. A failed search or an
/// empty result list means "no match": nothing further is fetched and the
/// book stays as it is. Otherwise the first result's self-link is to be
/// fetched with the detail query.
pub fn next_after_search(items: &Option<Vec<String>>) -> (r: Option<String>)
    ensures
        match items {
            Some(list) => if list@.len() > 0 {
                r matches Some(u) && u@ == spec_detail_url(list.deep_view()[0])
            } else {
                r is None
            },
            None => r is None,
        },
{
    match items {
        Some(list) => {
            if list.len() > 0 {
                proof {
                    assert(list.deep_view()[0] == list@[0]@);
                }
                Some(detail_url(list[0].as_str()))
            } else {
                None
            }
        },
        None => None,
    }
}

/// Apply the outcome of the detail fetch: on success the catalog's title,
/// authors and first 13-digit ISBN replace the book's own and the note and
/// timestamp are kept; on any failure the book comes back unchanged.
pub fn apply_detail(b: Book, v: &Option<VolumeInfo>) -> (r: Book)
    ensures
        match v {
            Some(info) => r@.title == info.title@ && r@.authors == info.authors.deep_view()
                && r@.isbn13 == spec_first_isbn13(info.ids.deep_view()) && r@.note == b@.note
                && r@.timestamp == b@.timestamp,
            None => r@ == b@,
        },
{
    match v {
        Some(info) => Book {
            authors: clone_strings(&info.authors),
            title: info.title.clone(),
            isbn13: first_isbn13(&info.ids),
            note: b.note,
            timestamp: b.timestamp,
        },
        None => b,
    }
}

} // verus!
