//! The per-request admission pipeline of the routing coordinator.
//!
//! For one request the coordinator classifies the prompt, filters the
//! candidate backends against the ZDR directory and against availability,
//! and then walks the surviving candidates in input order: it asks the
//! breaker registry for admission, performs the chat call, and records the
//! outcome.  The HTTP call itself and the walk around it belong to the
//! caller that owns the transport; the decision steps here are verified:
//! [`plan_route`] produces the eligible candidates (or the error when none
//! survive), and [`record_route_outcome`] does the bookkeeping a finished
//! call requires.

use vstd::prelude::*;

verus! {

use crate::privacy::PrivacyAuditLog;
use crate::privacy::PrivacyLevel;
use crate::privacy::PrivacyScanResult;
use crate::privacy::PrivacyScanner;
use crate::privacy::ZdrMap;
use crate::privacy::filter_zdr_backends;
use crate::privacy::pattern_hits;
use crate::privacy::spec_zdr_filter;
use crate::provider_health::ProviderHealthRegistry;
use crate::provider_health::spec_providers_updated;
use crate::provider_health::spec_state_or_fresh;

/// Why routing could not produce a response.
#[derive(Debug, Clone, Copy, PartialEq, Eq, Structural)]
pub enum RouteError {
    /// The privacy filter or the availability filter left zero candidates.
    NoEligibleBackend,
    /// Every eligible candidate ended in a transport failure.
    AllBackendsFailed,
}

/// What the admission pipeline decided for one request.
#[derive(Debug)]
pub struct RoutePlan {
    /// The privacy classification of the prompt.
    pub scan: PrivacyScanResult,
    /// The eligible backends, in caller preference order: ZDR-filtered
    /// according to the scan's level, then filtered for availability.
    pub candidates: Vec<String>,
}

/// The candidates that a scan level admits: only ZDR backends under
/// `Strict`, all of them otherwise.
pub open spec fn spec_zdr_allowed(
    level: PrivacyLevel,
    candidates: Seq<Seq<char>>,
    zdr_map: ZdrMap,
) -> Seq<Seq<char>> {
    if level.spec_requires_zdr() {
        spec_zdr_filter(zdr_map, candidates)
    } else {
        candidates
    }
}

/// What a successful plan promises: the scan classified the prompt by the
/// pattern hits, and the candidate list is the non-empty availability
/// filter (at some clock reading) of the ZDR-allowed candidates.
pub open spec fn spec_plan_ok(
    scanner: PrivacyScanner,
    health: ProviderHealthRegistry,
    prompt: Seq<char>,
    candidates: Seq<Seq<char>>,
    zdr_map: ZdrMap,
    plan: RoutePlan,
    now_ms: u64,
) -> bool {
    let hits = pattern_hits(scanner.config.strict_patterns.deep_view(), prompt);
    let sensitive = hits.len() > 0;
    let level = if sensitive {
        PrivacyLevel::Strict
    } else {
        scanner.config.default_level
    };
    let allowed = spec_zdr_allowed(level, candidates, zdr_map);
    &&& plan.scan.level == level
    &&& plan.scan.sensitive_detected == sensitive
    &&& plan.scan.matched_patterns.deep_view() == hits
    &&& plan.scan.escalated == (sensitive && scanner.config.default_level != PrivacyLevel::Strict)
    &&& plan.candidates.deep_view() == health.spec_filter_available(allowed, now_ms)
    &&& plan.candidates.deep_view().len() > 0
}

/// What the failure promises: at some clock reading, no candidate survived
/// the ZDR and availability filters.
pub open spec fn spec_no_eligible(
    scanner: PrivacyScanner,
    health: ProviderHealthRegistry,
    prompt: Seq<char>,
    candidates: Seq<Seq<char>>,
    zdr_map: ZdrMap,
    now_ms: u64,
) -> bool {
    let hits = pattern_hits(scanner.config.strict_patterns.deep_view(), prompt);
    let sensitive = hits.len() > 0;
    let level = if sensitive {
        PrivacyLevel::Strict
    } else {
        scanner.config.default_level
    };
    let allowed = spec_zdr_allowed(level, candidates, zdr_map);
    health.spec_filter_available(allowed, now_ms).len() == 0
}

/// Classify the prompt and narrow the candidates: ZDR filtering under a
/// Strict level, then availability.  Fails with
/// [`RouteError::NoEligibleBackend`] exactly when no candidate survives.
pub fn plan_route(
    scanner: &PrivacyScanner,
    health: &ProviderHealthRegistry,
    prompt: &str,
    candidates: &Vec<String>,
    zdr_map: &ZdrMap,
) -> (r: Result<RoutePlan, RouteError>)
    ensures
        r matches Ok(plan) ==> exists |now_ms: u64| #[trigger] spec_plan_ok(
            *scanner,
            *health,
            prompt@,
            candidates.deep_view(),
            *zdr_map,
            plan,
            now_ms,
        ),
        r matches Err(e) ==> e == RouteError::NoEligibleBackend && exists |now_ms: u64| #[trigger] spec_no_eligible(
            *scanner,
            *health,
            prompt@,
            candidates.deep_view(),
            *zdr_map,
            now_ms,
        ),
{
    let scan = scanner.scan(prompt);
    let require_zdr = scan.level.requires_zdr();
    let allowed = filter_zdr_backends(candidates, zdr_map, require_zdr);
    let available = health.filter_available(&allowed);
    proof {
        assert(allowed.deep_view() == spec_zdr_allowed(
            scan.level,
            candidates.deep_view(),
            *zdr_map,
        ));
    }
    if available.len() == 0 {
        proof {
            let now_ms = choose |now_ms: u64|
                available.deep_view() == #[trigger] health.spec_filter_available(
                    allowed.deep_view(),
                    now_ms,
                );
            assert(health.spec_filter_available(allowed.deep_view(), now_ms).len() == 0);
            let hits = pattern_hits(scanner.config.strict_patterns.deep_view(), prompt@);
            let level = if hits.len() > 0 {
                PrivacyLevel::Strict
            } else {
                scanner.config.default_level
            };
            assert(scan.level == level);
            assert(allowed.deep_view() == spec_zdr_allowed(
                level,
                candidates.deep_view(),
                *zdr_map,
            ));
            assert(health.spec_filter_available(
                spec_zdr_allowed(level, candidates.deep_view(), *zdr_map),
                now_ms,
            ).len() == 0);
            assert(spec_no_eligible(
                *scanner,
                *health,
                prompt@,
                candidates.deep_view(),
                *zdr_map,
                now_ms,
            ));
        }
        Err(RouteError::NoEligibleBackend)
    } else {
        let plan = RoutePlan { scan, candidates: available };
        proof {
            assert(plan.candidates.deep_view().len() == plan.candidates@.len());
            let now_ms = choose |now_ms: u64|
                plan.candidates.deep_view() == #[trigger] health.spec_filter_available(
                    allowed.deep_view(),
                    now_ms,
                );
            assert(plan.candidates.deep_view() == health.spec_filter_available(
                spec_zdr_allowed(plan.scan.level, candidates.deep_view(), *zdr_map),
                now_ms,
            ));
            assert(spec_plan_ok(
                *scanner,
                *health,
                prompt@,
                candidates.deep_view(),
                *zdr_map,
                plan,
                now_ms,
            ));
        }
        Ok(plan)
    }
}

/// Record the outcome of one chat call against a backend: a success is
/// recorded with its latency (and, where a prompt that prefers ZDR was
/// nevertheless answered by a non-ZDR backend, audited); a failure is
/// recorded against the backend's health, which mirrors it to the breaker.
pub fn record_route_outcome(
    health: &mut ProviderHealthRegistry,
    audit: &mut PrivacyAuditLog,
    scan: &PrivacyScanResult,
    backend: &str,
    backend_zdr: bool,
    success: bool,
    latency_ms: u64,
)
    requires
        old(health).wf(),
    ensures
        final(health).wf(),
        final(health).config == old(health).config,
        success ==> exists |now_ms: u64|
            #![trigger spec_state_or_fresh(old(health).providers@, backend@).spec_after_success(latency_ms, now_ms, old(health).config)]
            spec_providers_updated(
                old(health).providers@,
                final(health).providers@,
                backend@,
                spec_state_or_fresh(old(health).providers@, backend@).spec_after_success(
                    latency_ms,
                    now_ms,
                    old(health).config,
                ),
            ),
        !success ==> exists |now_ms: u64|
            #![trigger spec_state_or_fresh(old(health).providers@, backend@).spec_after_failure(now_ms, old(health).config)]
            spec_providers_updated(
                old(health).providers@,
                final(health).providers@,
                backend@,
                spec_state_or_fresh(old(health).providers@, backend@).spec_after_failure(
                    now_ms,
                    old(health).config,
                ),
            ),
        success && scan.level == PrivacyLevel::Sensitive && !backend_zdr ==> exists |v: crate::privacy::ZdrViolation|
            #![trigger old(audit).violations@.push(v)]
            {
                &&& v.privacy_level == scan.level
                &&& v.backend@ == backend@
                &&& v.backend_has_zdr == backend_zdr
                &&& v.matched_patterns@ == scan.matched_patterns@
                &&& final(audit).violations@ == old(audit).violations@.push(v)
            },
        !(success && scan.level == PrivacyLevel::Sensitive && !backend_zdr)
            ==> final(audit).violations@ == old(audit).violations@,
{
    if success {
        health.record_success(backend, latency_ms);
        if !scan.level.requires_zdr() && !backend_zdr {
            let patterns = scan.matched_patterns.clone();
            proof {
                assert forall |i: int|
                    0 <= i < patterns@.len() implies patterns@[i]
                    == scan.matched_patterns@[i] by {
                    assert(vstd::pervasive::cloned::<String>(
                        scan.matched_patterns[i],
                        patterns[i],
                    ));
                }
                assert(patterns@ =~= scan.matched_patterns@);
            }
            audit.record_violation(scan.level, backend, backend_zdr, patterns);
        }
    } else {
        health.record_failure(backend);
    }
}

} // verus!
