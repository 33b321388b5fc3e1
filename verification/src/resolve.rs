//! The resolution itself: which candidates a request matches, and what the
//! matched candidates and the installed version decide.

use vstd::prelude::*;
use vstd::string::*;
use crate::filename::{
    catalog, candidate_views, parse_catalog, Candidate, CandidateView, FilenameFieldLayout,
};
use crate::text::views;

verus! {

/// A complete request: the image, the device type, and the version that the
/// client has installed.
#[derive(Debug, PartialEq, Eq)]
pub struct Request {
    pub image: String,
    pub device: String,
    pub current_version: String,
}

/// A request as plain sequences of characters.
pub struct RequestView {
    pub image: Seq<char>,
    pub device: Seq<char>,
    pub current_version: Seq<char>,
}

impl View for Request {
    type V = RequestView;

    open spec fn view(&self) -> RequestView {
        RequestView {
            image: self.image@,
            device: self.device@,
            current_version: self.current_version@,
        }
    }
}

impl Clone for Request {
    fn clone(&self) -> (c: Request)
        ensures
            c == *self,
    {
        Request {
            image: self.image.clone(),
            device: self.device.clone(),
            current_version: self.current_version.clone(),
        }
    }
}

/// What one resolution ends in.
#[derive(Debug, PartialEq, Eq)]
pub enum Outcome {
    /// Nothing on offer differs from what the client has.
    NoUpdateAvailable,
    /// The named artifact is on offer.
    UpdateAvailable(String),
    /// More than one artifact is on offer for the image and device: the
    /// names of all of them, in catalog order.
    AmbiguousCatalog(Vec<String>),
}

/// An outcome as plain sequences of characters.
pub enum OutcomeView {
    NoUpdateAvailable,
    UpdateAvailable(Seq<char>),
    AmbiguousCatalog(Seq<Seq<char>>),
}

impl View for Outcome {
    type V = OutcomeView;

    open spec fn view(&self) -> OutcomeView {
        match self {
            Outcome::NoUpdateAvailable => OutcomeView::NoUpdateAvailable,
            Outcome::UpdateAvailable(name) => OutcomeView::UpdateAvailable(name@),
            Outcome::AmbiguousCatalog(names) => OutcomeView::AmbiguousCatalog(views(names@)),
        }
    }
}

/// The candidate is for the request's image and device. The version plays
/// no part.
pub open spec fn is_match(c: CandidateView, request: RequestView) -> bool {
    c.image == request.image && c.device == request.device
}

/// `is_match` for a fixed request, as a function of the candidate.
pub open spec fn matcher(request: RequestView) -> spec_fn(CandidateView) -> bool {
    |c: CandidateView| is_match(c, request)
}

/// The candidates that the request matches, in order.
pub open spec fn matching(candidates: Seq<CandidateView>, request: RequestView) -> Seq<
    CandidateView,
> {
    candidates.filter(matcher(request))
}

/// The artifact names of the candidates, in order.
pub open spec fn artifact_names(candidates: Seq<CandidateView>) -> Seq<Seq<char>> {
    Seq::new(candidates.len(), |i: int| candidates[i].artifact_name)
}

/// What the matched candidates and the installed version decide: nothing
/// matched, no update; one matched, an update exactly where its version is
/// not the installed one, character for character; more matched, an error.
pub open spec fn decision(matched: Seq<CandidateView>, current_version: Seq<char>) -> OutcomeView {
    if matched.len() == 0 {
        OutcomeView::NoUpdateAvailable
    } else if matched.len() == 1 {
        if matched[0].version == current_version {
            OutcomeView::NoUpdateAvailable
        } else {
            OutcomeView::UpdateAvailable(matched[0].artifact_name)
        }
    } else {
        OutcomeView::AmbiguousCatalog(artifact_names(matched))
    }
}

/// The outcome of a request against a catalog of file names.
pub open spec fn resolution(
    names: Seq<Seq<char>>,
    layout: FilenameFieldLayout,
    request: RequestView,
) -> OutcomeView {
    decision(matching(catalog(names, layout), request), request.current_version)
}

/// Keeps the candidates whose image and device are the request's.
pub fn match_candidates(candidates: &Vec<Candidate>, request: &Request) -> (out: Vec<Candidate>)
    ensures
        candidate_views(out@) == matching(candidate_views(candidates@), request@),
{
    let mut out: Vec<Candidate> = Vec::new();
    let mut i: usize = 0;
    proof {
        reveal(Seq::filter);
        assert(candidate_views(candidates@).take(0) =~= Seq::<CandidateView>::empty());
        assert(candidate_views(out@) =~= Seq::<CandidateView>::empty());
    }
    while i < candidates.len()
        invariant
            i <= candidates.len(),
            candidate_views(out@) == matching(
                candidate_views(candidates@).take(i as int),
                request@,
            ),
        decreases candidates.len() - i,
    {
        let ghost before = out@;
        let ghost seen = candidate_views(candidates@).take(i as int);
        let ghost next = candidate_views(candidates@).take(i + 1);
        proof {
            reveal(Seq::filter);
            assert(next.drop_last() =~= seen);
            assert(next.last() == candidates@[i as int]@);
        }
        let c: &Candidate = &candidates[i];
        if c.image == request.image && c.device == request.device {
            out.push(c.clone());
            proof {
                assert(candidate_views(out@) =~= candidate_views(before).push(c@));
            }
        }
        i = i + 1;
    }
    proof {
        assert(candidate_views(candidates@).take(i as int) =~= candidate_views(candidates@));
    }
    out
}

/// Decides on the matched candidates and the installed version.
pub fn decide(matched: &Vec<Candidate>, current_version: &String) -> (out: Outcome)
    ensures
        out@ == decision(candidate_views(matched@), current_version@),
        matched@.len() == 0 ==> out@ == OutcomeView::NoUpdateAvailable,
        matched@.len() == 1 && matched@[0].version@ == current_version@ ==> out@
            == OutcomeView::NoUpdateAvailable,
        matched@.len() == 1 && matched@[0].version@ != current_version@ ==> out@
            == OutcomeView::UpdateAvailable(matched@[0].artifact_name@),
        matched@.len() >= 2 ==> out@ is AmbiguousCatalog,
{
    if matched.len() == 0 {
        Outcome::NoUpdateAvailable
    } else if matched.len() == 1 {
        if matched[0].version == *current_version {
            Outcome::NoUpdateAvailable
        } else {
            Outcome::UpdateAvailable(matched[0].artifact_name.clone())
        }
    } else {
        let mut names: Vec<String> = Vec::new();
        let mut i: usize = 0;
        while i < matched.len()
            invariant
                i <= matched.len(),
                names@.len() == i,
                forall|k: int| 0 <= k < i ==> names@[k]@ == matched@[k].artifact_name@,
            decreases matched.len() - i,
        {
            names.push(matched[i].artifact_name.clone());
            i = i + 1;
        }
        proof {
            assert(views(names@) =~= artifact_names(candidate_views(matched@)));
        }
        Outcome::AmbiguousCatalog(names)
    }
}

/// Resolves a request against the file names of a catalog.
pub fn resolve(names: &Vec<String>, layout: &FilenameFieldLayout, request: &Request) -> (out:
    Outcome)
    ensures
        out@ == resolution(views(names@), *layout, request@),
{
    let candidates: Vec<Candidate> = parse_catalog(names, layout);
    let matched: Vec<Candidate> = match_candidates(&candidates, request);
    decide(&matched, &request.current_version)
}

/// A catalog in which nothing matches the request's image and device gives
/// no update.
pub proof fn lemma_no_match_no_update(
    names: Seq<Seq<char>>,
    layout: FilenameFieldLayout,
    request: RequestView,
)
    requires
        matching(catalog(names, layout), request).len() == 0,
    ensures
        resolution(names, layout, request) == OutcomeView::NoUpdateAvailable,
{
}

/// A catalog with exactly one match, of the installed version, gives no
/// update, whatever the artifact is called.
pub proof fn lemma_same_version_no_update(
    names: Seq<Seq<char>>,
    layout: FilenameFieldLayout,
    request: RequestView,
)
    requires
        matching(catalog(names, layout), request).len() == 1,
        matching(catalog(names, layout), request)[0].version == request.current_version,
    ensures
        resolution(names, layout, request) == OutcomeView::NoUpdateAvailable,
{
}

/// A catalog with exactly one match, of another version than the installed
/// one, gives an update that names that entry's file; and the file is one of
/// the catalog's names.
pub proof fn lemma_other_version_update(
    names: Seq<Seq<char>>,
    layout: FilenameFieldLayout,
    request: RequestView,
)
    requires
        matching(catalog(names, layout), request).len() == 1,
        matching(catalog(names, layout), request)[0].version != request.current_version,
    ensures
        resolution(names, layout, request) == OutcomeView::UpdateAvailable(
            matching(catalog(names, layout), request)[0].artifact_name,
        ),
        names.contains(matching(catalog(names, layout), request)[0].artifact_name),
{
    let found = matching(catalog(names, layout), request);
    let c = found[0];
    assert(found.contains(c));
    catalog(names, layout).lemma_filter_contains_rev(matcher(request), c);
    lemma_catalog_entry_is_named(names, layout, c);
}

/// A catalog with two or more matches is ambiguous, whatever their versions.
pub proof fn lemma_many_matches_ambiguous(
    names: Seq<Seq<char>>,
    layout: FilenameFieldLayout,
    request: RequestView,
)
    requires
        matching(catalog(names, layout), request).len() >= 2,
    ensures
        resolution(names, layout, request) is AmbiguousCatalog,
{
}

/// Every candidate of a catalog carries the name of the file that it was
/// decoded from.
pub proof fn lemma_catalog_entry_is_named(
    names: Seq<Seq<char>>,
    layout: FilenameFieldLayout,
    c: CandidateView,
)
    requires
        catalog(names, layout).contains(c),
    ensures
        names.contains(c.artifact_name),
        crate::filename::decode(c.artifact_name, layout) == Some(c),
{
    names.lemma_filter_map_contains(crate::filename::decoder(layout), c);
    let n = choose|n: Seq<char>| #[trigger]
        names.contains(n) && crate::filename::decoder(layout)(n) == Some(c);
    assert(c.artifact_name == n);
}

} // verus!
