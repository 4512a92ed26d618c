//! What a lookup makes of the stored variants of a resource.
use http::{HeaderMap, HeaderValue};
use vstd::prelude::*;

use crate::fetch;
use crate::fetch::{CacheMode, Request, RequestMode};
use crate::fields;
use crate::fields::{content_length, copy_fields, first_value, has_field};
use crate::http_cache::inflight::InFlightState;
use crate::http_cache::key::{CacheKey, EntryId, KeyView};
use crate::http_cache::policy;
use crate::http_cache::policy::{
    take_from, EntryPolicy, Freshness, PolicyView, VerdictView,
};
use crate::http_cache::range;
use crate::http_cache::range::RangeOutcome;
use crate::http_cache::store;
use crate::http_cache::store::{BodyRange, DecoderType, EntryMeta, MetaView, CACHE_FORMAT};
use crate::text;
use crate::time::Span;

verus! {

/// How many times a lookup will wait for another fetch to finish writing the same
/// key before giving up and going to the network itself.
pub const MAX_INFLIGHT_WAITS: usize = 8;

/// Is this cache the private or the public one?
#[derive(Clone, Copy, Debug, PartialEq, Eq, Structural)]
pub enum HttpCacheAssignment {
    /// The cache shared by ordinary browsing, which may be backed by disk.
    Public,
    /// The private-browsing cache, which is always memory-only.
    Private,
}

/// Whether a stored response is fresh, or needs validating before or after use.
#[derive(Clone, Copy, Debug, PartialEq, Eq, Structural)]
pub enum ValidationStatus {
    /// Fresh; usable without any revalidation.
    Valid,
    /// Stale.
    Stale {
        /// Whether it may still be served immediately, leaving the caller to
        /// revalidate it in the background.
        revalidate_in_background: bool,
    },
}

/// What a stored variant is to a request.
#[derive(Clone, Copy, Debug, PartialEq, Eq, Structural)]
pub enum Standing {
    /// It answers the request as it is.
    Fresh,
    /// It is what the request asks for, but has to be revalidated.
    Stale,
    /// It does not answer the request.
    Other,
}

pub open spec fn standing_of(outcome: RangeOutcome, verdict: VerdictView) -> Standing {
    match (outcome, verdict) {
        (RangeOutcome::Unsatisfiable, _) => Standing::Other,
        (_, VerdictView::Fresh) => Standing::Fresh,
        (_, VerdictView::Stale { matches, revalidation }) => if matches {
            Standing::Stale
        } else {
            Standing::Other
        },
    }
}

/// What a stored variant is to a request at a given time.
pub open spec fn standing(request: &Request, meta: MetaView, now: Span) -> Standing {
    standing_of(
        range::selected(request.fields(), meta),
        policy::verdict(meta.policy, policy::policy_view(request, meta.fields), now),
    )
}

pub open spec fn standings(
    request: &Request,
    variants: Seq<(EntryId, MetaView)>,
    now: Span,
) -> Seq<Standing> {
    Seq::new(variants.len(), |i: int| standing(request, variants[i].1, now))
}

/// The first variant of a given standing, or the number of variants if none has it.
pub open spec fn first_of(standings: Seq<Standing>, which: Standing) -> int
    decreases standings.len(),
{
    if standings.len() == 0 {
        0
    } else {
        let before = first_of(standings.drop_last(), which);
        if before < standings.len() - 1 || standings.last() == which {
            before
        } else {
            standings.len() as int
        }
    }
}

/// Which variant answers: the first fresh one, or else the first stale one.
pub open spec fn chosen(standings: Seq<Standing>) -> Option<int> {
    if first_of(standings, Standing::Fresh) < standings.len() {
        Some(first_of(standings, Standing::Fresh))
    } else if first_of(standings, Standing::Stale) < standings.len() {
        Some(first_of(standings, Standing::Stale))
    } else {
        None
    }
}

/// How many variants are looked at: those up to the first fresh one.
pub open spec fn looked_at(standings: Seq<Standing>) -> int {
    if first_of(standings, Standing::Fresh) < standings.len() {
        first_of(standings, Standing::Fresh) + 1
    } else {
        standings.len() as int
    }
}

/// The variants among the first `n` that the request matched.
pub open spec fn matched(
    variants: Seq<(EntryId, MetaView)>,
    standings: Seq<Standing>,
    n: int,
) -> Seq<EntryId>
    decreases n,
{
    if n <= 0 {
        seq![]
    } else if standings[n - 1] == Standing::Other {
        matched(variants, standings, n - 1)
    } else {
        matched(variants, standings, n - 1).push(variants[n - 1].0)
    }
}

pub proof fn lemma_first_of(standings: Seq<Standing>, which: Standing)
    ensures
        0 <= first_of(standings, which) <= standings.len(),
        first_of(standings, which) < standings.len() ==> standings[first_of(standings, which)]
            == which,
        forall|i: int|
            0 <= i < first_of(standings, which) ==> #[trigger] standings[i] != which,
    decreases standings.len(),
{
    if standings.len() > 0 {
        lemma_first_of(standings.drop_last(), which);
        assert forall|i: int| 0 <= i < first_of(standings, which) implies #[trigger] standings[i]
            != which by {
            if i < standings.len() - 1 {
                assert(standings.drop_last()[i] == standings[i]);
            }
        }
    }
}

proof fn lemma_first_is(standings: Seq<Standing>, which: Standing, i: int)
    requires
        0 <= i <= standings.len(),
        i < standings.len() ==> standings[i] == which,
        forall|j: int| 0 <= j < i ==> #[trigger] standings[j] != which,
    ensures
        first_of(standings, which) == i,
{
    lemma_first_of(standings, which);
    let f = first_of(standings, which);
    if f < i {
        assert(standings[f] != which);
    } else if i < f {
        assert(standings[i] != which);
    }
}

/// A variant whose body does not hold what is asked for, or that is another resource, does
/// not answer; any other one does, as it is where it is fresh.
pub proof fn law_standing(request: &Request, meta: MetaView, now: Span)
    ensures
        ({
            let outcome = range::selected(request.fields(), meta);
            let verdict = policy::verdict(
                meta.policy,
                policy::policy_view(request, meta.fields),
                now,
            );
            let r = standing(request, meta, now);
            &&& outcome is Unsatisfiable ==> r == Standing::Other
            &&& !(outcome is Unsatisfiable) && verdict is Fresh ==> r == Standing::Fresh
            &&& !(outcome is Unsatisfiable) && (verdict matches VerdictView::Stale {
                matches,
                revalidation,
            } && matches) ==> r == Standing::Stale
            &&& (verdict matches VerdictView::Stale { matches, revalidation } && !matches)
                ==> r == Standing::Other
        }),
{
}

/// What answers is the first of its kind: no variant before a fresh one that answers is
/// fresh, and where a stale one answers none is fresh at all and none before it stale.
pub proof fn law_first_answers(standings: Seq<Standing>, i: int)
    requires
        chosen(standings) == Some(i),
    ensures
        0 <= i < standings.len(),
        standings[i] == Standing::Fresh || standings[i] == Standing::Stale,
        forall|j: int| 0 <= j < i ==> #[trigger] standings[j] != standings[i],
        standings[i] == Standing::Stale ==> forall|j: int|
            0 <= j < standings.len() ==> #[trigger] standings[j] != Standing::Fresh,
{
    lemma_first_of(standings, Standing::Fresh);
    lemma_first_of(standings, Standing::Stale);
}

/// Whether a variant is looked at: no variant before it is fresh.
pub open spec fn is_reached(standings: Seq<Standing>, i: int) -> bool {
    forall|j: int| 0 <= j < i ==> #[trigger] standings[j] != Standing::Fresh
}

/// A newly stored response takes the place of just those variants that the request
/// matched, among the ones that were looked at: all of them up to a fresh one.
pub proof fn law_superseded_are_the_matched(
    variants: Seq<(EntryId, MetaView)>,
    standings: Seq<Standing>,
    id: EntryId,
)
    requires
        variants.len() == standings.len(),
    ensures
        matched(variants, standings, looked_at(standings)).contains(id) <==> exists|i: int|
            0 <= i < standings.len() && #[trigger] is_reached(standings, i) && standings[i]
                != Standing::Other && variants[i].0 == id,
{
    lemma_first_of(standings, Standing::Fresh);
    let n = looked_at(standings);
    let f = first_of(standings, Standing::Fresh);
    lemma_matched_members(variants, standings, n, id);
    if matched(variants, standings, n).contains(id) {
        let i = choose|i: int|
            0 <= i < n && (#[trigger] standings[i]) != Standing::Other && variants[i].0 == id;
        assert(is_reached(standings, i));
    } else {
        assert forall|i: int|
            0 <= i < standings.len() && #[trigger] is_reached(standings, i) && standings[i]
                != Standing::Other implies variants[i].0 != id by {
            if f < standings.len() && f < i {
                assert(standings[f] != Standing::Fresh);
            }
            assert(i < n);
        }
    }
}

proof fn lemma_matched_members(
    variants: Seq<(EntryId, MetaView)>,
    standings: Seq<Standing>,
    n: int,
    id: EntryId,
)
    requires
        0 <= n,
    ensures
        matched(variants, standings, n).contains(id) <==> exists|i: int|
            0 <= i < n && (#[trigger] standings[i]) != Standing::Other && variants[i].0 == id,
    decreases n,
{
    if n > 0 {
        lemma_matched_members(variants, standings, n - 1, id);
        let before = matched(variants, standings, n - 1);
        let all = matched(variants, standings, n);
        if before.contains(id) {
            let k = choose|k: int| 0 <= k < before.len() && before[k] == id;
            assert(all[k] == id);
        }
        if all.contains(id) {
            let k = choose|k: int| 0 <= k < all.len() && all[k] == id;
            if k < before.len() {
                assert(before[k] == id);
            } else {
                assert(standings[n - 1] != Standing::Other);
            }
        }
        if standings[n - 1] != Standing::Other && variants[n - 1].0 == id {
            assert(all[all.len() - 1] == id);
        }
    }
}

/// A fresh variant is always preferred to a stale one, and what answers is one of
/// the variants that a newly stored response replaces.
pub proof fn law_choice(variants: Seq<(EntryId, MetaView)>, standings: Seq<Standing>, i: int)
    requires
        variants.len() == standings.len(),
        0 <= i < standings.len(),
        standings[i] != Standing::Other,
    ensures
        chosen(standings) is Some,
        standings[i] == Standing::Fresh ==> standings[chosen(standings)->0] == Standing::Fresh,
        standings[chosen(standings)->0] != Standing::Other,
        matched(variants, standings, looked_at(standings)).contains(
            variants[chosen(standings)->0].0,
        ),
{
    lemma_first_of(standings, Standing::Fresh);
    lemma_first_of(standings, Standing::Stale);
    lemma_matched_contains(variants, standings, looked_at(standings), chosen(standings)->0);
}

proof fn lemma_matched_contains(
    variants: Seq<(EntryId, MetaView)>,
    standings: Seq<Standing>,
    n: int,
    i: int,
)
    requires
        0 <= i < n,
        standings[i] != Standing::Other,
    ensures
        matched(variants, standings, n).contains(variants[i].0),
    decreases n,
{
    if i < n - 1 {
        lemma_matched_contains(variants, standings, n - 1, i);
        let before = matched(variants, standings, n - 1);
        let k = choose|k: int| 0 <= k < before.len() && before[k] == variants[i].0;
        assert(matched(variants, standings, n)[k] == variants[i].0);
    } else {
        let r = matched(variants, standings, n);
        assert(r[r.len() - 1] == variants[i].0);
    }
}

/// What a lookup selected.
#[derive(Debug)]
pub struct Selection {
    /// Variants this request matched. A newly stored response replaces them.
    pub superseded: Vec<EntryId>,
    /// The variant that answers, with its state.
    pub answer: Option<(EntryId, EntryMeta, Freshness)>,
}

/// Whether a freshness is the one of an entry at a given time.
pub open spec fn is_state(request: &Request, meta: MetaView, now: Span, freshness: Freshness) -> bool {
    policy::is_freshness(
        freshness,
        policy::verdict(meta.policy, policy::policy_view(request, meta.fields), now),
        policy::spec_age(meta.policy.fields, meta.policy.response_time, now),
        policy::stored_lifetime(meta.policy),
    )
}

/// Whether a request can be compared with stored ones.
pub open spec fn is_request(request: &Request) -> bool {
    &&& fetch::is_method(request.method@)
    &&& fields::has_room(request.fields(), 2)
    &&& fields::value_count(request.headers) <= fields::MAX_VALUES
}

impl Selection {
    /// What selecting among the given variants gives.
    pub open spec fn is_of(
        &self,
        request: &Request,
        variants: Seq<(EntryId, MetaView)>,
        now: Span,
    ) -> bool {
        let s = standings(request, variants, now);
        &&& self.superseded@ == matched(variants, s, looked_at(s))
        &&& match chosen(s) {
            Some(i) => self.answer matches Some(answer) && answer.0 == variants[i].0 && answer.1@
                == variants[i].1 && answer.1.usable() && is_state(
                request,
                variants[i].1,
                now,
                answer.2,
            ) && !(answer.2 is NoMatch),
            None => self.answer is None,
        }
    }
}

/// Find the stored variant that answers `request`.
pub fn select_variant(
    variants: &Vec<(EntryId, EntryMeta)>,
    request: &Request,
    now: Span,
) -> (r: Selection)
    requires
        is_request(request),
        policy::is_date(now),
        forall|i: int| 0 <= i < variants@.len() ==> (#[trigger] variants@[i]).1.usable(),
    ensures
        r.is_of(request, store::found(variants@), now),
{
    let ghost all = store::found(variants@);
    let ghost s = standings(request, all, now);
    let mut superseded: Vec<EntryId> = Vec::new();
    let mut stale: Option<(EntryId, EntryMeta, Freshness)> = None;
    let mut i: usize = 0;
    while i < variants.len()
        invariant
            i <= variants@.len(),
            is_request(request),
            policy::is_date(now),
            forall|j: int| 0 <= j < variants@.len() ==> (#[trigger] variants@[j]).1.usable(),
            all == store::found(variants@),
            s == standings(request, all, now),
            superseded@ == matched(all, s, i as int),
            forall|j: int| 0 <= j < i ==> #[trigger] s[j] != Standing::Fresh,
            match stale {
                None => forall|j: int| 0 <= j < i ==> #[trigger] s[j] != Standing::Stale,
                Some(answer) => {
                    let k = first_of(s, Standing::Stale);
                    &&& 0 <= k < i
                    &&& answer.0 == all[k].0
                    &&& answer.1@ == all[k].1
                    &&& answer.1.usable()
                    &&& is_state(request, all[k].1, now, answer.2)
                    &&& !(answer.2 is NoMatch)
                },
            },
        decreases variants@.len() - i,
    {
        let id: EntryId = variants[i].0;
        let meta: &EntryMeta = &variants[i].1;
        assert(all[i as int] == (id, meta@));
        assert(variants@[i as int].1.usable());
        assert(s[i as int] == standing(request, meta@, now));
        let outcome: RangeOutcome = range::select(request, meta);
        if !matches!(outcome, RangeOutcome::Unsatisfiable) {
            proof {
                meta.policy.lemma_usable(now);
            }
            let freshness: Freshness = meta.policy.evaluate(request, &meta.headers, now);
            assert(is_state(request, meta@, now, freshness));
            match freshness {
                Freshness::Fresh => {
                    superseded.push(id);
                    proof {
                        lemma_first_is(s, Standing::Fresh, i as int);
                        assert(matched(all, s, i + 1) == matched(all, s, i as int).push(id));
                    }
                    return Selection {
                        superseded,
                        answer: Some((id, meta.copy(), Freshness::Fresh)),
                    };
                },
                Freshness::Stale { .. } => {
                    superseded.push(id);
                    if stale.is_none() {
                        stale = Some((id, meta.copy(), freshness));
                        proof {
                            lemma_first_is(s, Standing::Stale, i as int);
                        }
                    }
                },
                Freshness::NoMatch => {},
            }
        }
        i += 1;
    }
    proof {
        lemma_first_is(s, Standing::Fresh, s.len() as int);
        if stale is None {
            lemma_first_is(s, Standing::Stale, s.len() as int);
        }
    }
    Selection { superseded, answer: stale }
}

/// What a lookup does after it found nothing and could not become the writer itself.
#[derive(Clone, Copy, Debug, PartialEq, Eq, Structural)]
pub enum NextRound {
    /// To look once more.
    LookAgain,
    /// To go to the network.
    GiveUp,
}

/// What to do once the fetch that is waited for came to `state`, when `waited` waits
/// are over, this one included.
pub fn after_wait(state: InFlightState, waited: usize) -> (r: NextRound)
    ensures
        r == if state is Writing || waited >= MAX_INFLIGHT_WAITS {
            NextRound::GiveUp
        } else {
            NextRound::LookAgain
        },
{
    match state {
        InFlightState::Writing => NextRound::GiveUp,
        _ => if waited >= MAX_INFLIGHT_WAITS {
            NextRound::GiveUp
        } else {
            NextRound::LookAgain
        },
    }
}

/// Whether the request refuses to be answered from a cache at all.
pub open spec fn forbids_stored_responses(request: &Request) -> bool {
    fields::directives(request.fields()) matches Some(directives) && directives.no_store
}

/// Whether the request refuses to be answered from a cache at all.
pub fn request_forbids_stored_responses(request: &Request) -> (r: bool)
    ensures
        r == forbids_stored_responses(request),
{
    match fields::cache_control(&request.headers) {
        Some(directives) => directives.no_store,
        None => false,
    }
}

/// Whether a response to the request can be cached at all.
pub fn is_cacheable_request(request: &Request, cache_disabled: bool) -> (r: bool)
    ensures
        r == (!cache_disabled && request.method@ == text::bytes("GET")),
{
    !cache_disabled && request.is_get()
}

/// What may be done with a selected response.
#[derive(Clone, Copy, Debug, PartialEq, Eq, Structural)]
pub struct Judgement {
    /// Whether it may be served though it is stale, and is then revalidated in the
    /// background.
    pub serve_stale: bool,
    /// Whether it may be used as it is.
    pub usable: bool,
    /// Whether it has to be revalidated before it is used.
    pub revalidate: bool,
}

/// Whether a response may be served while stale: it must lie within its
/// `stale-while-revalidate` window, and the request must not insist.
pub open spec fn within_window(freshness: Freshness, window: Span, insists: bool) -> bool {
    freshness matches Freshness::Stale { stale_for, revalidation } && window.total() > 0
        && stale_for.total() <= window.total() && !insists
}

pub open spec fn judged(
    freshness: Freshness,
    window: Span,
    insists: bool,
    forbids: bool,
    cache_mode: CacheMode,
    mode: RequestMode,
) -> Judgement {
    let serve_stale = within_window(freshness, window, insists);
    let forced = cache_mode == CacheMode::ForceCache || cache_mode == CacheMode::OnlyIfCached
        && mode == RequestMode::SameOrigin;
    let barred = forbids || cache_mode == CacheMode::OnlyIfCached && mode
        != RequestMode::SameOrigin || cache_mode == CacheMode::NoStore || cache_mode
        == CacheMode::Reload;
    Judgement {
        serve_stale,
        usable: !barred && (forced || freshness is Fresh || serve_stale),
        revalidate: !barred && !forced && freshness is Stale && !serve_stale,
    }
}

/// Decide what may be done with a response of the given state, for a request of
/// which it is known whether it insists on revalidation and whether it forbids
/// stored responses.
pub fn judge_state(
    freshness: &Freshness,
    window: Span,
    insists: bool,
    forbids: bool,
    cache_mode: CacheMode,
    mode: RequestMode,
) -> (r: Judgement)
    requires
        window.wf(),
        freshness matches Freshness::Stale { stale_for, revalidation } ==> stale_for.wf(),
    ensures
        r == judged(*freshness, window, insists, forbids, cache_mode, mode),
{
    let serve_stale: bool = match freshness {
        Freshness::Stale { stale_for, .. } => !window.is_zero() && !window.is_less(stale_for)
            && !insists,
        _ => false,
    };
    let (usable, revalidate): (bool, bool) = if forbids {
        (false, false)
    } else {
        match cache_mode {
            CacheMode::ForceCache => (true, false),
            CacheMode::OnlyIfCached => (matches!(mode, RequestMode::SameOrigin), false),
            CacheMode::NoStore => (false, false),
            CacheMode::Reload => (false, false),
            _ => match freshness {
                Freshness::Fresh => (true, false),
                Freshness::Stale { .. } => (serve_stale, !serve_stale),
                Freshness::NoMatch => (false, false),
            },
        }
    };
    Judgement { serve_stale, usable, revalidate }
}

/// Decide what may be done with a stored response of the given state.
///
/// The fetch cache modes decide whether it may be used at all. A request's `no-store`
/// keeps it from being answered with a stored response too.
pub fn judge(request: &Request, freshness: &Freshness, window: Span) -> (r: Judgement)
    requires
        window.wf(),
        freshness matches Freshness::Stale { stale_for, revalidation } ==> stale_for.wf(),
    ensures
        r == judged(
            *freshness,
            window,
            policy::demands_revalidation(request),
            forbids_stored_responses(request),
            request.cache_mode,
            request.mode,
        ),
{
    judge_state(
        freshness,
        window,
        policy::request_demands_revalidation(request),
        request_forbids_stored_responses(request),
        request.cache_mode,
        request.mode,
    )
}

/// A stored response is never both used and held back for revalidation, a request
/// that forbids stored responses gets none, and one that insists on revalidation is
/// not answered with a stale one unless its mode forces that.
pub proof fn law_judgement(
    freshness: Freshness,
    window: Span,
    insists: bool,
    forbids: bool,
    cache_mode: CacheMode,
    mode: RequestMode,
)
    ensures
        ({
            let r = judged(freshness, window, insists, forbids, cache_mode, mode);
            &&& !(r.usable && r.revalidate)
            &&& forbids ==> !r.usable && !r.revalidate
            &&& r.usable && insists && freshness is Stale ==> cache_mode == CacheMode::ForceCache
                || cache_mode == CacheMode::OnlyIfCached
            &&& cache_mode == CacheMode::Reload || cache_mode == CacheMode::NoStore ==> !r.usable
        }),
{
}

/// What the cache mode of a request makes of a selected response, unless the request
/// forbids stored ones. Forcing the cache uses it as it is, fresh or stale, and so does
/// asking the cache alone within one origin; asking the cache alone across origins, storing
/// nothing and reloading never use it. In the other modes a fresh response is used, and a
/// stale one is revalidated first, unless it lies within its window and the request does
/// not insist.
pub proof fn law_cache_modes(
    freshness: Freshness,
    window: Span,
    insists: bool,
    cache_mode: CacheMode,
    mode: RequestMode,
)
    ensures
        ({
            let r = judged(freshness, window, insists, false, cache_mode, mode);
            match cache_mode {
                CacheMode::ForceCache => r.usable && !r.revalidate,
                CacheMode::OnlyIfCached => !r.revalidate && (r.usable <==> mode
                    == RequestMode::SameOrigin),
                CacheMode::NoStore => !r.usable && !r.revalidate,
                CacheMode::Reload => !r.usable && !r.revalidate,
                CacheMode::Default | CacheMode::NoCache => match freshness {
                    Freshness::Fresh => r.usable && !r.revalidate && !r.serve_stale,
                    Freshness::Stale { stale_for, revalidation } => {
                        &&& stale_for.total() > window.total() ==> r.revalidate && !r.usable
                        &&& window.total() == 0 ==> r.revalidate && !r.usable
                        &&& insists ==> r.revalidate && !r.usable
                        &&& 0 < window.total() && stale_for.total() <= window.total() && !insists
                            ==> r.usable && r.serve_stale && !r.revalidate
                    },
                    Freshness::NoMatch => !r.usable && !r.revalidate,
                },
            }
        }),
{
}

/// A stale response is only ever served for the sake of its window, and a fresh one never
/// is: what is served so is revalidated in the background.
pub proof fn law_stale_service(
    freshness: Freshness,
    window: Span,
    insists: bool,
    forbids: bool,
    cache_mode: CacheMode,
    mode: RequestMode,
)
    ensures
        judged(freshness, window, insists, forbids, cache_mode, mode).serve_stale ==> (
        freshness matches Freshness::Stale { stale_for, revalidation } && stale_for.total()
            <= window.total()) && window.total() > 0 && !insists,
        freshness is Stale && judged(
            freshness,
            window,
            insists,
            forbids,
            cache_mode,
            mode,
        ).usable ==> judged(freshness, window, insists, forbids, cache_mode, mode).serve_stale
            || cache_mode == CacheMode::ForceCache || cache_mode == CacheMode::OnlyIfCached,
{
}

/// What is told of a selected response, if it is asked about only.
pub fn validation_status(request: &Request, freshness: &Freshness, window: Span) -> (r: Option<
    ValidationStatus,
>)
    requires
        window.wf(),
        freshness matches Freshness::Stale { stale_for, revalidation } ==> stale_for.wf(),
    ensures
        r == match *freshness {
            Freshness::Fresh => Some(ValidationStatus::Valid),
            Freshness::Stale { .. } => Some(
                ValidationStatus::Stale {
                    revalidate_in_background: within_window(
                        *freshness,
                        window,
                        policy::demands_revalidation(request),
                    ),
                },
            ),
            Freshness::NoMatch => None,
        },
{
    match freshness {
        Freshness::Fresh => Some(ValidationStatus::Valid),
        Freshness::Stale { stale_for, .. } => Some(
            ValidationStatus::Stale {
                revalidate_in_background: !window.is_zero() && !window.is_less(stale_for)
                    && !policy::request_demands_revalidation(request),
            },
        ),
        Freshness::NoMatch => None,
    }
}

/// The fields of an outgoing request once the conditional ones of a revalidation are
/// on it.
pub open spec fn conditional(
    to: Map<Seq<u8>, Seq<Seq<u8>>>,
    from: Map<Seq<u8>, Seq<Seq<u8>>>,
) -> Map<Seq<u8>, Seq<Seq<u8>>> {
    policy::with_or_without(
        policy::with_or_without(to, from, text::bytes("if-none-match")),
        from,
        text::bytes("if-modified-since"),
    )
}

/// Copy the conditional headers a revalidation needs onto the outgoing request.
pub fn copy_conditional_headers(
    from: &HeaderMap<HeaderValue>,
    to: &mut HeaderMap<HeaderValue>,
)
    requires
        fields::has_room(fields::header_fields(*old(to)), 1),
    ensures
        fields::header_fields(*final(to)) == conditional(
            fields::header_fields(*old(to)),
            fields::header_fields(*from),
        ),
{
    proof {
        fields::lemma_names();
    }
    take_from(to, from, "if-none-match".as_bytes());
    take_from(to, from, "if-modified-since".as_bytes());
}

/// A revalidation asks with the validators that it was given, each once, and with no stale
/// ones of an earlier attempt; no other field of the request changes.
pub proof fn law_conditional_request(
    to: Map<Seq<u8>, Seq<Seq<u8>>>,
    from: Map<Seq<u8>, Seq<Seq<u8>>>,
    name: Seq<u8>,
)
    ensures
        ({
            let asked = conditional(to, from);
            let tag = fields::field(from, "if-none-match");
            let date = fields::field(from, "if-modified-since");
            &&& fields::field(asked, "if-none-match") == if tag.len() > 0 {
                seq![tag[0]]
            } else {
                seq![]
            }
            &&& fields::field(asked, "if-modified-since") == if date.len() > 0 {
                seq![date[0]]
            } else {
                seq![]
            }
            &&& text::lower(name) != text::lower(text::bytes("if-none-match")) && text::lower(name)
                != text::lower(text::bytes("if-modified-since")) ==> fields::values_of(asked, name)
                == fields::values_of(to, name)
        }),
{
    reveal_strlit("if-none-match");
    reveal_strlit("if-modified-since");
    fields::lemma_ascii_bytes("if-none-match");
    fields::lemma_ascii_bytes("if-modified-since");
    assert(text::lower(text::bytes("if-none-match")).len() == 13);
    assert(text::lower(text::bytes("if-modified-since")).len() == 17);
}

/// How a stored response is served.
#[derive(Debug)]
pub struct ServePlan {
    pub headers: HeaderMap<HeaderValue>,
    pub status: Option<u16>,
    /// The part of the stored body that is sent; all of it where there is none.
    pub range: Option<BodyRange>,
}

/// Why a stored entry could not answer a request.
#[derive(Clone, Copy, Debug, PartialEq, Eq, Structural)]
pub enum ServeError {
    /// The entry is no longer there.
    Gone,
    /// The entry is fine, but it cannot serve the requested range.
    RangeNotSatisfiable,
}

/// The header fields that an entry is served with as a whole.
pub open spec fn presented_fields(meta: MetaView, now: Span) -> Map<Seq<u8>, Seq<Seq<u8>>> {
    policy::presented(
        meta.fields,
        (policy::spec_age(meta.policy.fields, meta.policy.response_time, now) / 1_000_000_000)
            as nat,
        now,
    )
}

/// Whether a plan is how an entry answers a request.
pub open spec fn is_plan(
    r: Result<ServePlan, ServeError>,
    outcome: RangeOutcome,
    meta: MetaView,
    now: Span,
) -> bool {
    match outcome {
        RangeOutcome::Whole => r matches Ok(plan) && fields::header_fields(plan.headers)
            == presented_fields(meta, now) && plan.status == meta.status && plan.range is None,
        RangeOutcome::Unsatisfiable => r == Err::<ServePlan, ServeError>(
            ServeError::RangeNotSatisfiable,
        ),
        RangeOutcome::Satisfiable(hit) => r matches Ok(plan) && fields::header_fields(
            plan.headers,
        ) == range::described(presented_fields(meta, now), hit) && plan.status == Some(206u16)
            && plan.range == Some(hit.body),
    }
}

/// How a stored entry answers a request.
pub fn plan_serve(request: &Request, meta: &EntryMeta, now: Span) -> (r: Result<
    ServePlan,
    ServeError,
>)
    requires
        meta.usable(),
        policy::is_date(now),
    ensures
        is_plan(r, range::selected(request.fields(), meta@), meta@, now),
        r matches Ok(plan) ==> (plan.range matches Some(part) ==> part.start <= part.end
            < meta@.body_len),
{
    proof {
        meta.policy.lemma_usable(now);
        range::law_hit_lies_in_body(request.fields(), meta@);
    }
    let mut headers: HeaderMap<HeaderValue> = policy::presented_headers(
        &meta.headers,
        &meta.policy,
        now,
    );
    match range::select(request, meta) {
        RangeOutcome::Whole => Ok(ServePlan { headers, status: meta.status, range: None }),
        RangeOutcome::Unsatisfiable => Err(ServeError::RangeNotSatisfiable),
        RangeOutcome::Satisfiable(hit) => {
            proof {
                lemma_presented_room(meta@, now);
            }
            range::apply_headers(&mut headers, &hit);
            Ok(ServePlan { headers, status: Some(206), range: Some(hit.body) })
        },
    }
}

proof fn lemma_presented_room(meta: MetaView, now: Span)
    requires
        fields::has_room(meta.fields, 3),
    ensures
        fields::has_room(presented_fields(meta, now), 1),
{
    let kept = policy::served(meta.fields, meta.fields.dom());
    assert(kept.dom().subset_of(meta.fields.dom()));
    vstd::set_lib::lemma_len_subset(kept.dom(), meta.fields.dom());
    assert(presented_fields(meta, now).dom() =~= kept.dom().insert(
        text::lower(text::bytes("age")),
    ).insert(text::lower(text::bytes("date"))));
}

/// What a response that was just received is stored with. Nothing of it, what it is
/// judged by included, holds the fields that are never stored.
pub open spec fn stored_meta(
    key: KeyView,
    request: &Request,
    status: u16,
    fields: Map<Seq<u8>, Seq<Seq<u8>>>,
    encoding: Option<DecoderType>,
    now: Span,
) -> MetaView {
    let kept = policy::stripped(fields);
    MetaView {
        format: CACHE_FORMAT,
        key,
        policy: PolicyView {
            request: policy::policy_view(request, kept),
            status: policy::spec_policy_status(status, kept),
            fields: kept,
            response_time: now,
        },
        stale_while_revalidate: Span { secs: crate::directives::stale_window(kept), nanos: 0 },
        fields: kept,
        status: Some(status),
        final_url: key.url,
        content_encoding: encoding,
        body_len: 0,
    }
}

/// Whether a response that was just received may be stored.
pub open spec fn may_store(
    key: KeyView,
    storable: bool,
    request: &Request,
    status: Option<u16>,
    fields: Map<Seq<u8>, Seq<Seq<u8>>>,
    max_entry_bytes: u64,
    now: Span,
) -> bool {
    &&& storable
    &&& request.cache_mode != CacheMode::NoStore
    &&& status is Some
    &&& status == Some(206u16) ==> fields::present(fields, "content-range")
    &&& !policy::nominates_everything(fields)
    &&& policy::storable(stored_meta(key, request, status->0, fields, None, now).policy)
    &&& fields::stated_length(fields::field(fields, "content-length")) matches Some(length)
        ==> length <= max_entry_bytes
}

/// A cookie that a response sets is not part of what is stored of it, and not of what a
/// hit is served with.
pub proof fn law_cookies_are_not_served(
    key: KeyView,
    request: &Request,
    status: u16,
    fields: Map<Seq<u8>, Seq<Seq<u8>>>,
    encoding: Option<DecoderType>,
    stored_at: Span,
    now: Span,
)
    ensures
        ({
            let meta = stored_meta(key, request, status, fields, encoding, stored_at);
            &&& !fields::present(meta.fields, "set-cookie")
            &&& !fields::present(meta.fields, "set-cookie2")
            &&& !fields::present(meta.policy.fields, "set-cookie")
            &&& !fields::present(meta.policy.fields, "set-cookie2")
            &&& !fields::present(presented_fields(meta, now), "set-cookie")
            &&& !fields::present(presented_fields(meta, now), "set-cookie2")
        }),
{
    policy::lemma_cookie_names();
}

/// What a response is stored with is the response: under the key of the request, with its
/// status, every field that may be stored, the time at which it came, and the window that
/// it gives. What it is judged by is the same.
pub proof fn law_stored_is_the_response(
    key: KeyView,
    request: &Request,
    status: u16,
    fields: Map<Seq<u8>, Seq<Seq<u8>>>,
    encoding: Option<DecoderType>,
    now: Span,
    name: Seq<u8>,
)
    ensures
        ({
            let meta = stored_meta(key, request, status, fields, encoding, now);
            &&& meta.key == key
            &&& meta.final_url == key.url
            &&& meta.status == Some(status)
            &&& meta.content_encoding == encoding
            &&& meta.policy.response_time == now
            &&& meta.policy.request.uri == request.url@
            &&& meta.policy.request.method == request.method@
            &&& meta.policy.fields == meta.fields
            &&& text::lower(name) != text::lower(text::bytes("set-cookie")) && text::lower(name)
                != text::lower(text::bytes("set-cookie2")) ==> fields::values_of(meta.fields, name)
                == fields::values_of(fields, name)
        }),
{
}

/// A response that nothing speaks against is stored: the request may be cached and does not
/// say otherwise, the response has a status, says which part it is if it is partial, does
/// not vary on everything, is storable, and gives no length beyond what is kept.
pub proof fn law_storable_is_stored(
    key: KeyView,
    request: &Request,
    status: u16,
    fields: Map<Seq<u8>, Seq<Seq<u8>>>,
    max_entry_bytes: u64,
    now: Span,
)
    requires
        request.cache_mode != CacheMode::NoStore,
        status != 206 || fields::present(fields, "content-range"),
        !text::items(fields::field(fields, "vary")).contains(text::bytes("*")),
        policy::storable(stored_meta(key, request, status, fields, None, now).policy),
        fields::stated_length(fields::field(fields, "content-length")) matches Some(length)
            ==> length <= max_entry_bytes,
    ensures
        may_store(key, true, request, Some(status), fields, max_entry_bytes, now),
{
}

/// Nothing is stored of a request that may not be, of a response that varies on
/// everything, of a partial one that does not say which part it is, or of one that says
/// it is longer than an entry may be.
pub proof fn law_never_stored(
    key: KeyView,
    storable: bool,
    request: &Request,
    status: Option<u16>,
    fields: Map<Seq<u8>, Seq<Seq<u8>>>,
    max_entry_bytes: u64,
    now: Span,
)
    requires
        ({
            ||| !storable
            ||| request.cache_mode == CacheMode::NoStore
            ||| status is None
            ||| status == Some(206u16) && !fields::present(fields, "content-range")
            ||| policy::nominates_everything(fields)
            ||| fields::stated_length(fields::field(fields, "content-length")) matches Some(length)
                && length > max_entry_bytes
        }),
    ensures
        !may_store(key, storable, request, status, fields, max_entry_bytes, now),
{
}

/// The metadata a response would be stored with, or `None` if it must not be stored.
///
/// A partial response is only worth storing if it says which part it holds, and one
/// with `Vary: *` never matches a later request. Outsized entries are refused up
/// front. `encoding` is the content coding of the response.
pub fn entry_meta(
    key: &CacheKey,
    storable: bool,
    request: &Request,
    status: Option<u16>,
    headers: &HeaderMap<HeaderValue>,
    encoding: Option<DecoderType>,
    max_entry_bytes: u64,
    now: Span,
) -> (r: Option<EntryMeta>)
    requires
        fetch::is_method(request.method@),
        fields::has_room(request.fields(), 0),
        status matches Some(code) ==> 100 <= code <= 999,
        policy::is_date(now),
    ensures
        r is Some == may_store(
            key@,
            storable,
            request,
            status,
            fields::header_fields(*headers),
            max_entry_bytes,
            now,
        ),
        r matches Some(meta) ==> {
            &&& meta@ == stored_meta(
                key@,
                request,
                status->0,
                fields::header_fields(*headers),
                encoding,
                now,
            )
            &&& meta.policy.wf()
            &&& fields::value_count(meta.policy.headers) <= fields::value_count(*headers)
        },
{
    if !storable || matches!(request.cache_mode, CacheMode::NoStore) {
        return None;
    }
    let code: u16 = match status {
        Some(code) => code,
        None => return None,
    };
    if code == 206 && !has_field(headers, "content-range".as_bytes()) {
        return None;
    }
    if policy::varies_on_everything(headers) {
        return None;
    }
    let mut stored_headers: HeaderMap<HeaderValue> = copy_fields(headers);
    policy::strip_unstorable_fields(&mut stored_headers);
    let policy: EntryPolicy = EntryPolicy::new(request, code, &stored_headers, now);
    if !policy.is_storable() {
        return None;
    }
    match content_length(headers) {
        Some(length) => if length > max_entry_bytes {
            return None;
        },
        None => {},
    }
    let url: &String = key.url();
    Some(
        EntryMeta {
            format: CACHE_FORMAT,
            key: key.copy(),
            policy,
            content_encoding: encoding,
            headers: stored_headers,
            status,
            final_url: url.clone(),
            body_len: 0,
        },
    )
}

/// Freshening a stored response upon validation: what the entry's metadata becomes
/// when its revalidation was answered with `status` and `headers`.
pub fn refreshed_meta(
    meta: &EntryMeta,
    request: &Request,
    status: Option<u16>,
    headers: &HeaderMap<HeaderValue>,
    now: Span,
) -> (r: Option<EntryMeta>)
    requires
        meta.policy.wf(),
        policy::is_date(now),
        fetch::is_method(request.method@),
        fields::has_room(request.fields(), 0),
        meta.status matches Some(code) ==> 100 <= code <= 999,
        status matches Some(code) ==> 100 <= code <= 999,
        fields::has_room(meta@.fields, 1),
        meta@.policy.fields.dom().finite(),
        fields::has_room(
            fields::header_fields(*headers),
            meta@.policy.fields.dom().len() as int + 6,
        ),
        fields::value_count(*headers) + 2 <= fields::MAX_VALUES,
    ensures
        match (status, meta.status) {
            (Some(status), Some(stored_status)) => match policy::refreshed(
                meta@.policy,
                request,
                status,
                fields::header_fields(*headers),
                meta@.fields,
                now,
            ) {
                Some(merged) => r matches Some(fresh) && fresh.policy.wf() && fresh@ == freshened(
                    meta@,
                    request,
                    status,
                    fields::header_fields(*headers),
                    merged,
                    now,
                ),
                None => r is None,
            },
            _ => r is None,
        },
{
    let code: u16 = match status {
        Some(code) => code,
        None => return None,
    };
    let stored_status: u16 = match meta.status {
        Some(code) => code,
        None => return None,
    };
    match meta.policy.refresh(request, stored_status, code, headers, &meta.headers, now) {
        Some((policy, merged)) => Some(
            EntryMeta {
                format: meta.format,
                key: meta.key.copy(),
                policy,
                headers: merged,
                status: meta.status,
                final_url: meta.final_url.clone(),
                content_encoding: meta.content_encoding,
                body_len: meta.body_len,
            },
        ),
        None => None,
    }
}

/// An entry after its revalidation gave it the fields `merged`.
pub open spec fn freshened(
    meta: MetaView,
    request: &Request,
    status: u16,
    fields: Map<Seq<u8>, Seq<Seq<u8>>>,
    merged: Map<Seq<u8>, Seq<Seq<u8>>>,
    now: Span,
) -> MetaView {
    let judged = policy::rejudged(merged, policy::validated(status, fields, meta.fields));
    MetaView {
        policy: PolicyView {
            request: policy::policy_view(request, judged),
            status: policy::spec_policy_status(meta.status->0, judged),
            fields: judged,
            response_time: now,
        },
        stale_while_revalidate: Span {
            secs: crate::directives::stale_window(merged),
            nanos: 0,
        },
        fields: merged,
        ..meta
    }
}

/// Freshening an entry leaves what it answers for, and its body, alone.
pub proof fn law_freshening_keeps_the_body(
    meta: MetaView,
    request: &Request,
    status: u16,
    fields: Map<Seq<u8>, Seq<Seq<u8>>>,
    merged: Map<Seq<u8>, Seq<Seq<u8>>>,
    now: Span,
)
    ensures
        ({
            let fresh = freshened(meta, request, status, fields, merged, now);
            &&& fresh.key == meta.key
            &&& fresh.status == meta.status
            &&& fresh.final_url == meta.final_url
            &&& fresh.content_encoding == meta.content_encoding
            &&& fresh.body_len == meta.body_len
        }),
{
}

/// The address that a reference gives against a base, both as text, where both parse.
pub uninterp spec fn joined_url(base: Seq<char>, reference: Seq<u8>) -> Option<Seq<char>>;

/// `url::Url::join` resolves a reference against a base. The result depends on the
/// two texts alone; it fails where either does not parse.
#[verifier::external_body]
fn join_url(base: &str, reference: &[u8]) -> (r: Option<String>)
    ensures
        r is Some == joined_url(base@, reference@) is Some,
        r matches Some(url) ==> joined_url(base@, reference@) == Some(url@),
{
    let reference = std::str::from_utf8(reference).ok()?;
    let url = url::Url::parse(base).ok()?.join(reference).ok()?;
    Some(String::from(url))
}

/// Where a field of a response points, resolved against where the request went.
pub open spec fn location(
    request: &Request,
    fields: Map<Seq<u8>, Seq<Seq<u8>>>,
    name: Seq<u8>,
) -> Option<Seq<char>> {
    match fields::first(fields, name) {
        Some(value) => if text::is_text(value) {
            joined_url(request.url@, value)
        } else {
            None
        },
        None => None,
    }
}

/// Where a field of a response points, resolved against where the request went.
pub fn resolve_location_url(
    request: &Request,
    headers: &HeaderMap<HeaderValue>,
    name: &[u8],
) -> (r: Option<String>)
    ensures
        r is Some == location(request, fields::header_fields(*headers), name@) is Some,
        r matches Some(url) ==> location(request, fields::header_fields(*headers), name@) == Some(
            url@,
        ),
{
    match first_value(headers, name) {
        Some(value) => if text::check_text(&value) {
            join_url(request.url.as_str(), &value)
        } else {
            None
        },
        None => None,
    }
}

/// The keys that an unsafe request makes invalid: its own, and those of the given
/// places that differ from it.
pub open spec fn invalidated(key: KeyView, places: Seq<Option<Seq<char>>>) -> Seq<KeyView>
    decreases places.len(),
{
    if places.len() == 0 {
        seq![key]
    } else {
        let before = invalidated(key, places.drop_last());
        match places.last() {
            Some(url) => if (KeyView { url, partition: None }) != key {
                before.push(KeyView { url, partition: None })
            } else {
                before
            },
            None => before,
        }
    }
}

fn also_invalidate(keys: &mut Vec<CacheKey>, key: &CacheKey, place: Option<String>)
    ensures
        key_views(final(keys)@) == match place {
            Some(url) => if (KeyView { url: url@, partition: None }) != key@ {
                key_views(old(keys)@).push(KeyView { url: url@, partition: None })
            } else {
                key_views(old(keys)@)
            },
            None => key_views(old(keys)@),
        },
{
    match place {
        Some(url) => {
            let other: CacheKey = CacheKey::from_url(url);
            if !other.same(key) {
                let ghost before = key_views(keys@);
                keys.push(other);
                assert(key_views(keys@) =~= before.push(other@));
            }
        },
        None => {},
    }
}

/// The keys in a list.
pub open spec fn key_views(keys: Seq<CacheKey>) -> Seq<KeyView> {
    Seq::new(keys.len(), |i: int| keys[i]@)
}

/// The keys that an unsafe request makes invalid.
pub fn invalidated_keys(
    key: &CacheKey,
    request: &Request,
    headers: &HeaderMap<HeaderValue>,
) -> (r: Vec<CacheKey>)
    ensures
        key_views(r@) == invalidated(
            key@,
            seq![
                location(request, fields::header_fields(*headers), text::bytes("location")),
                location(request, fields::header_fields(*headers), text::bytes("content-location")),
            ],
        ),
{
    let mut keys: Vec<CacheKey> = Vec::new();
    keys.push(key.copy());
    let ghost fields = fields::header_fields(*headers);
    let ghost a = location(request, fields, text::bytes("location"));
    let ghost b = location(request, fields, text::bytes("content-location"));
    proof {
        assert(seq![a, b].drop_last() =~= seq![a]);
        assert(seq![a].drop_last() =~= Seq::<Option<Seq<char>>>::empty());
        assert(key_views(keys@) =~= seq![key@]);
        reveal_with_fuel(invalidated, 3);
    }
    let place: Option<String> = resolve_location_url(request, headers, "location".as_bytes());
    also_invalidate(&mut keys, key, place);
    let other: Option<String> = resolve_location_url(
        request,
        headers,
        "content-location".as_bytes(),
    );
    also_invalidate(&mut keys, key, other);
    keys
}

proof fn lemma_invalidated(key: KeyView, places: Seq<Option<Seq<char>>>, other: KeyView)
    ensures
        invalidated(key, places).len() > 0,
        invalidated(key, places)[0] == key,
        invalidated(key, places).contains(other) <==> other == key || (other.partition is None
            && places.contains(Some(other.url))),
    decreases places.len(),
{
    if places.len() == 0 {
        assert(invalidated(key, places)[0] == key);
        if places.contains(Some(other.url)) {
            assert(false);
        }
    } else {
        let front = places.drop_last();
        let before = invalidated(key, front);
        let all = invalidated(key, places);
        lemma_invalidated(key, front, other);
        assert(front.push(places.last()) =~= places);
        assert(places.contains(Some(other.url)) <==> front.contains(Some(other.url))
            || places.last() == Some(other.url)) by {
            if front.contains(Some(other.url)) {
                let k = choose|k: int| 0 <= k < front.len() && front[k] == Some(other.url);
                assert(places[k] == Some(other.url));
            }
            if places.last() == Some(other.url) {
                assert(places[places.len() - 1] == Some(other.url));
            }
        }
        if before.contains(other) {
            let k = choose|k: int| 0 <= k < before.len() && before[k] == other;
            assert(all[k] == other);
        }
        if all.contains(other) {
            let k = choose|k: int| 0 <= k < all.len() && all[k] == other;
            if k < before.len() {
                assert(before[k] == other);
            }
        }
        if let Some(url) = places.last() {
            let there = KeyView { url, partition: None };
            if there != key {
                assert(all[all.len() - 1] == there);
            }
        }
    }
}

/// An unsafe request makes invalid what is stored under its own key, whatever the response
/// to it says, and what is stored where a `Location` or a `Content-Location` of the response
/// points, as far as these can be resolved. It makes nothing else invalid.
pub proof fn law_unsafe_request_invalidates(
    key: KeyView,
    request: &Request,
    fields: Map<Seq<u8>, Seq<Seq<u8>>>,
    other: KeyView,
)
    ensures
        ({
            let moved = location(request, fields, text::bytes("location"));
            let content = location(request, fields, text::bytes("content-location"));
            let keys = invalidated(key, seq![moved, content]);
            &&& keys.contains(key)
            &&& moved matches Some(url) ==> keys.contains(KeyView { url, partition: None })
            &&& content matches Some(url) ==> keys.contains(KeyView { url, partition: None })
            &&& keys.contains(other) ==> other == key || Some(other.url) == moved || Some(other.url)
                == content
        }),
{
    let moved = location(request, fields, text::bytes("location"));
    let content = location(request, fields, text::bytes("content-location"));
    let places = seq![moved, content];
    lemma_invalidated(key, places, key);
    lemma_invalidated(key, places, other);
    assert(places[0] == moved && places[1] == content);
    if let Some(url) = moved {
        assert(places.contains(Some(url)));
        lemma_invalidated(key, places, KeyView { url, partition: None });
    }
    if let Some(url) = content {
        assert(places.contains(Some(url)));
        lemma_invalidated(key, places, KeyView { url, partition: None });
    }
}

/// A field of a response that points somewhere is resolved against where the request went,
/// by its first value; one that is absent or is no text points nowhere.
pub proof fn law_location(
    request: &Request,
    fields: Map<Seq<u8>, Seq<Seq<u8>>>,
    name: Seq<u8>,
)
    ensures
        fields::values_of(fields, name).len() == 0 ==> location(request, fields, name) is None,
        fields::values_of(fields, name).len() > 0 && text::is_text(
            fields::values_of(fields, name)[0],
        ) ==> location(request, fields, name) == joined_url(
            request.url@,
            fields::values_of(fields, name)[0],
        ),
        fields::values_of(fields, name).len() > 0 && !text::is_text(
            fields::values_of(fields, name)[0],
        ) ==> location(request, fields, name) is None,
{
}

/// An entry that was confirmed counts as received at that moment: its age starts again at what
/// the confirmation says of it, or at nothing, and its window is the one that its merged
/// fields give. It is served with these.
pub proof fn law_confirmed_entry_is_young(
    meta: MetaView,
    request: &Request,
    status: u16,
    fields: Map<Seq<u8>, Seq<Seq<u8>>>,
    merged: Map<Seq<u8>, Seq<Seq<u8>>>,
    now: Span,
)
    ensures
        ({
            let fresh = freshened(meta, request, status, fields, merged, now);
            let from_304 = policy::validated(status, fields, meta.fields);
            let age = policy::spec_age(fresh.policy.fields, fresh.policy.response_time, now);
            &&& fields::first(from_304, text::bytes("age")) is None ==> age == 0
            &&& age == policy::age_secs(fresh.policy.fields) * 1_000_000_000
            &&& fields::first(fresh.policy.fields, text::bytes("age")) == fields::first(
                from_304,
                text::bytes("age"),
            )
            &&& fresh.fields == merged
            &&& fresh.stale_while_revalidate.total() == crate::directives::stale_window(merged)
                * 1_000_000_000
            &&& fresh.key == meta.key
            &&& fresh.status == meta.status
            &&& fresh.body_len == meta.body_len
        }),
{
    policy::law_rejudged_fields(
        merged,
        policy::validated(status, fields, meta.fields),
        text::bytes("age"),
    );
    let fresh = freshened(meta, request, status, fields, merged, now);
    policy::law_age_grows_with_time(fresh.policy.fields, fresh.policy.response_time, now, now);
    policy::law_age_field(fresh.policy.fields, 0);
}

} // verus!
