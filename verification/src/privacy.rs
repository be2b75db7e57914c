//! Privacy classification and Zero Data Retention (ZDR) enforcement.
//!
//! This module provides:
//! - privacy level classification (Standard, Sensitive, Strict)
//! - prompt scanning for sensitive patterns
//! - auto-escalation to Strict when sensitive data is detected
//! - ZDR-aware backend filtering
//! - the append-only audit log of ZDR violations
//!
//! Pattern matching goes through the regex crate: which patterns compile
//! and which match a prompt are named by the uninterpreted functions
//! [`pattern_compiles`] and [`pattern_matches`], and every contract above
//! the scanner is exact in terms of those names.

use vstd::prelude::*;

verus! {

use crate::clock;

/// Privacy level for a request.
#[derive(Debug, Clone, Copy, PartialEq, Eq, Default, Structural)]
pub enum PrivacyLevel {
    /// Default - any provider is acceptable.
    #[default]
    Standard,
    /// Prefer ZDR providers, warn if non-ZDR used.
    Sensitive,
    /// ZDR-only providers, fail if unavailable.
    Strict,
}

/// The lower-case code point of an ASCII letter; other code points are
/// unchanged.
pub open spec fn lower_code_point(c: char) -> int {
    if 65 <= c as u32 && c as u32 <= 90 {
        c as u32 + 32
    } else {
        c as u32 as int
    }
}

/// Two character sequences are equal up to ASCII case.
pub open spec fn seq_eq_ignore_ascii_case(a: Seq<char>, b: Seq<char>) -> bool {
    a.len() == b.len() && forall |i: int|
        0 <= i < a.len() ==> lower_code_point(a[i]) == #[trigger] lower_code_point(b[i])
}

/// Compare two strings for equality up to ASCII case.
fn str_eq_ignore_ascii_case(a: &str, b: &str) -> (r: bool)
    ensures
        r == seq_eq_ignore_ascii_case(a@, b@),
{
    let la = a.unicode_len();
    let lb = b.unicode_len();
    if la != lb {
        return false;
    }
    let mut i: usize = 0;
    while i < la
        invariant
            la == a@.len(),
            lb == b@.len(),
            la == lb,
            0 <= i <= la,
            forall |j: int|
                0 <= j < i ==> lower_code_point(a@[j]) == #[trigger] lower_code_point(b@[j]),
        decreases la - i,
    {
        let ca = a.get_char(i);
        let cb = b.get_char(i);
        let xa = ca as u32;
        let xb = cb as u32;
        let fa = if 65 <= xa && xa <= 90 {
            xa + 32
        } else {
            xa
        };
        let fb = if 65 <= xb && xb <= 90 {
            xb + 32
        } else {
            xb
        };
        if fa != fb {
            proof {
                assert(lower_code_point(a@[i as int]) != lower_code_point(b@[i as int]));
            }
            return false;
        }
        i = i + 1;
    }
    true
}

impl PrivacyLevel {
    /// The level named by `s`, compared without regard to ASCII case.
    pub open spec fn spec_from_str(s: Seq<char>) -> Option<PrivacyLevel> {
        if seq_eq_ignore_ascii_case(s, "standard"@) {
            Some(PrivacyLevel::Standard)
        } else if seq_eq_ignore_ascii_case(s, "sensitive"@) {
            Some(PrivacyLevel::Sensitive)
        } else if seq_eq_ignore_ascii_case(s, "strict"@) {
            Some(PrivacyLevel::Strict)
        } else {
            None
        }
    }

    /// Parse from string, ignoring ASCII case.
    pub fn from_str(s: &str) -> (r: Option<Self>)
        ensures
            r == Self::spec_from_str(s@),
    {
        if str_eq_ignore_ascii_case(s, "standard") {
            Some(PrivacyLevel::Standard)
        } else if str_eq_ignore_ascii_case(s, "sensitive") {
            Some(PrivacyLevel::Sensitive)
        } else if str_eq_ignore_ascii_case(s, "strict") {
            Some(PrivacyLevel::Strict)
        } else {
            None
        }
    }

    /// Get as string.
    pub fn as_str(&self) -> (r: &'static str)
        ensures
            *self == PrivacyLevel::Standard ==> r@ == "standard"@,
            *self == PrivacyLevel::Sensitive ==> r@ == "sensitive"@,
            *self == PrivacyLevel::Strict ==> r@ == "strict"@,
    {
        match self {
            PrivacyLevel::Standard => "standard",
            PrivacyLevel::Sensitive => "sensitive",
            PrivacyLevel::Strict => "strict",
        }
    }

    /// Only `Strict` requires ZDR backends.
    pub open spec fn spec_requires_zdr(self) -> bool {
        self == PrivacyLevel::Strict
    }

    /// `Sensitive` and `Strict` prefer ZDR backends.
    pub open spec fn spec_prefers_zdr(self) -> bool {
        self == PrivacyLevel::Sensitive || self == PrivacyLevel::Strict
    }

    /// Check if ZDR is required.
    pub fn requires_zdr(&self) -> (r: bool)
        ensures
            r == self.spec_requires_zdr(),
    {
        match self {
            PrivacyLevel::Strict => true,
            _ => false,
        }
    }

    /// Check if ZDR is preferred.
    pub fn prefers_zdr(&self) -> (r: bool)
        ensures
            r == self.spec_prefers_zdr(),
    {
        match self {
            PrivacyLevel::Sensitive => true,
            PrivacyLevel::Strict => true,
            PrivacyLevel::Standard => false,
        }
    }
}

/// The default list of patterns whose match escalates a prompt to Strict.
pub open spec fn default_patterns_spec() -> Seq<Seq<char>> {
    seq![
        "password"@,
        "secret"@,
        r"\bkey\b"@,
        "token"@,
        "api[_-]?key"@,
        "ssn"@,
        "social.?security"@,
        "credit.?card"@,
        "cvv"@,
        "private.?key"@,
        "-----BEGIN"@,
        r"bearer\s"@,
    ]
}

/// The default patterns that auto-escalate to Strict: credentials, keys and
/// tokens, personal identifiers, card data, key material and bearer
/// headers.
pub fn default_strict_patterns() -> (r: Vec<String>)
    ensures
        r.deep_view() == default_patterns_spec(),
{
    let mut v: Vec<String> = Vec::new();
    v.push("password".to_owned());
    v.push("secret".to_owned());
    v.push(r"\bkey\b".to_owned());
    v.push("token".to_owned());
    v.push("api[_-]?key".to_owned());
    v.push("ssn".to_owned());
    v.push("social.?security".to_owned());
    v.push("credit.?card".to_owned());
    v.push("cvv".to_owned());
    v.push("private.?key".to_owned());
    v.push("-----BEGIN".to_owned());
    v.push(r"bearer\s".to_owned());
    proof {
        assert(v.deep_view() =~= default_patterns_spec());
    }
    v
}

/// Privacy configuration.
#[derive(Debug, Clone)]
pub struct PrivacyConfig {
    /// Default privacy level for all requests.
    pub default_level: PrivacyLevel,
    /// Patterns that auto-escalate to Strict (case-insensitive regex
    /// fragments, run in order).
    pub strict_patterns: Vec<String>,
    /// Whether to audit ZDR violations.
    pub audit_zdr_violations: bool,
    /// Prefer local provider for sensitive data.
    pub prefer_local_for_sensitive: bool,
}

impl Default for PrivacyConfig {
    /// Standard by default, with the default pattern list, auditing on.
    fn default() -> (c: Self)
        ensures
            c.default_level == PrivacyLevel::Standard,
            c.strict_patterns.deep_view() == default_patterns_spec(),
            c.audit_zdr_violations == true,
            c.prefer_local_for_sensitive == true,
    {
        PrivacyConfig {
            default_level: PrivacyLevel::Standard,
            strict_patterns: default_strict_patterns(),
            audit_zdr_violations: true,
            prefer_local_for_sensitive: true,
        }
    }
}

/// Whether the case-insensitive regex built from a pattern compiles.
/// Named, not defined: the regex crate decides, as a function of the
/// pattern alone.
pub uninterp spec fn pattern_compiles(pattern: Seq<char>) -> bool;

/// Whether the case-insensitive regex built from a pattern matches
/// somewhere in a text.  Named, not defined: the regex crate decides, as a
/// function of the pattern and text alone.
pub uninterp spec fn pattern_matches(pattern: Seq<char>, text: Seq<char>) -> bool;

/// Relies on regex::Regex::new and regex::Regex::is_match: whether the
/// case-insensitive regex of `pattern` compiles, and whether it matches
/// `text`, depend on the pattern and text alone.  `None` reports a pattern
/// that does not compile.
#[verifier::external_body]
fn regex_ci_match(pattern: &str, text: &str) -> (r: Option<bool>)
    ensures
        (r matches Some(_)) == pattern_compiles(pattern@),
        r matches Some(m) ==> m == pattern_matches(pattern@, text@),
{
    match regex::Regex::new(&format!("(?i){}", pattern)) {
        Ok(re) => Some(re.is_match(text)),
        Err(_) => None,
    }
}

/// The patterns that compile and match `text`, in their list order.
/// Patterns that do not compile are skipped.
pub open spec fn pattern_hits(patterns: Seq<Seq<char>>, text: Seq<char>) -> Seq<Seq<char>>
    decreases patterns.len(),
{
    if patterns.len() == 0 {
        Seq::<Seq<char>>::empty()
    } else {
        let rest = pattern_hits(patterns.drop_last(), text);
        if pattern_compiles(patterns.last()) && pattern_matches(patterns.last(), text) {
            rest.push(patterns.last())
        } else {
            rest
        }
    }
}

/// There is a hit exactly when some pattern compiles and matches.
pub proof fn lemma_pattern_hits_nonempty(patterns: Seq<Seq<char>>, text: Seq<char>)
    ensures
        pattern_hits(patterns, text).len() > 0 <==> exists |i: int|
            0 <= i < patterns.len() && pattern_compiles(#[trigger] patterns[i]) && pattern_matches(
                patterns[i],
                text,
            ),
    decreases patterns.len(),
{
    if patterns.len() > 0 {
        lemma_pattern_hits_nonempty(patterns.drop_last(), text);
        let head = patterns.drop_last();
        assert(forall |j: int| 0 <= j < head.len() ==> head[j] == patterns[j]);
        assert(patterns.last() == patterns[patterns.len() - 1]);
        if pattern_hits(patterns, text).len() > 0 {
            if !(pattern_compiles(patterns.last()) && pattern_matches(patterns.last(), text)) {
                let i = choose |i: int|
                    0 <= i < head.len() && pattern_compiles(#[trigger] head[i]) && pattern_matches(
                        head[i],
                        text,
                    );
                assert(pattern_compiles(patterns[i]) && pattern_matches(patterns[i], text));
            }
        }
        if exists |i: int|
            0 <= i < patterns.len() && pattern_compiles(#[trigger] patterns[i]) && pattern_matches(
                patterns[i],
                text,
            ) {
            let i = choose |i: int|
                0 <= i < patterns.len() && pattern_compiles(#[trigger] patterns[i])
                    && pattern_matches(patterns[i], text);
            if i < patterns.len() - 1 {
                assert(pattern_compiles(head[i]) && pattern_matches(head[i], text));
            }
        }
    }
}

/// Result of privacy scanning.
#[derive(Debug, Clone)]
pub struct PrivacyScanResult {
    /// Detected privacy level.
    pub level: PrivacyLevel,
    /// Whether patterns were matched.
    pub sensitive_detected: bool,
    /// Matched patterns (if any), in their list order.
    pub matched_patterns: Vec<String>,
    /// Whether privacy was escalated from the configured default.
    pub escalated: bool,
}

/// Privacy scanner for analyzing prompts.
#[derive(Debug)]
pub struct PrivacyScanner {
    pub config: PrivacyConfig,
}

impl PrivacyScanner {
    /// Create a new scanner with the given config.
    pub fn new(config: PrivacyConfig) -> (s: Self)
        ensures
            s.config == config,
    {
        PrivacyScanner { config }
    }

    /// Scan a prompt and determine its privacy level: any pattern match
    /// escalates to Strict; otherwise the configured default stands.
    /// `escalated` is set exactly when a match raised the level above a
    /// non-Strict default.
    pub fn scan(&self, prompt: &str) -> (r: PrivacyScanResult)
        ensures
            r.matched_patterns.deep_view() == pattern_hits(
                self.config.strict_patterns.deep_view(),
                prompt@,
            ),
            r.sensitive_detected == (r.matched_patterns.deep_view().len() > 0),
            r.level == if r.sensitive_detected {
                PrivacyLevel::Strict
            } else {
                self.config.default_level
            },
            r.escalated == (r.sensitive_detected && self.config.default_level
                != PrivacyLevel::Strict),
            (exists |i: int|
                0 <= i < self.config.strict_patterns.deep_view().len() && pattern_compiles(
                    #[trigger] self.config.strict_patterns.deep_view()[i],
                ) && pattern_matches(self.config.strict_patterns.deep_view()[i], prompt@)) ==> {
                &&& r.level == PrivacyLevel::Strict
                &&& r.sensitive_detected
                &&& (r.escalated <==> self.config.default_level != PrivacyLevel::Strict)
            },
    {
        let ghost all = self.config.strict_patterns.deep_view();
        let mut matched: Vec<String> = Vec::new();
        let n = self.config.strict_patterns.len();
        let mut i: usize = 0;
        proof {
            assert(all.take(0) =~= Seq::<Seq<char>>::empty());
            assert(matched.deep_view() =~= pattern_hits(all.take(0), prompt@));
        }
        while i < n
            invariant
                n == self.config.strict_patterns@.len(),
                all == self.config.strict_patterns.deep_view(),
                all.len() == n,
                forall |j: int|
                    0 <= j < n ==> all[j] == (#[trigger] self.config.strict_patterns@[j])@,
                0 <= i <= n,
                matched.deep_view() == pattern_hits(all.take(i as int), prompt@),
            decreases n - i,
        {
            proof {
                assert(all.take(i + 1).drop_last() =~= all.take(i as int));
                assert(all.take(i + 1).last() == all[i as int]);
            }
            let ghost pre = matched.deep_view();
            let hit = regex_ci_match(self.config.strict_patterns[i].as_str(), prompt);
            match hit {
                Some(true) => {
                    matched.push(self.config.strict_patterns[i].clone());
                    proof {
                        assert(matched.deep_view() =~= pre.push(all[i as int]));
                    }
                },
                _ => {},
            }
            proof {
                assert(matched.deep_view() =~= pattern_hits(all.take(i + 1), prompt@));
            }
            i = i + 1;
        }
        proof {
            assert(all.take(n as int) =~= all);
            lemma_pattern_hits_nonempty(all, prompt@);
        }
        let sensitive_detected = matched.len() > 0;
        let level = if sensitive_detected {
            PrivacyLevel::Strict
        } else {
            self.config.default_level
        };
        let escalated = sensitive_detected && !matches!(
            self.config.default_level,
            PrivacyLevel::Strict,
        );
        PrivacyScanResult { level, sensitive_detected, matched_patterns: matched, escalated }
    }

    /// Check if a backend is acceptable for a privacy level: Standard and
    /// Sensitive accept any backend (Sensitive is audited elsewhere);
    /// Strict accepts only ZDR backends.
    pub fn is_backend_acceptable(&self, backend_zdr: bool, level: PrivacyLevel) -> (r: bool)
        ensures
            r == (!level.spec_requires_zdr() || backend_zdr),
    {
        match level {
            PrivacyLevel::Standard => true,
            PrivacyLevel::Sensitive => true,
            PrivacyLevel::Strict => backend_zdr,
        }
    }

    /// Get config reference.
    pub fn config(&self) -> (r: &PrivacyConfig)
        ensures
            r == &self.config,
    {
        &self.config
    }
}

/// ZDR violation audit record.  The timestamp is wall-clock Unix seconds.
#[derive(Debug, Clone)]
pub struct ZdrViolation {
    pub timestamp: u64,
    pub privacy_level: PrivacyLevel,
    pub backend: String,
    pub backend_has_zdr: bool,
    pub matched_patterns: Vec<String>,
}

/// Audit log for ZDR violations: append-only, in memory, for the process
/// lifetime.
#[derive(Debug)]
pub struct PrivacyAuditLog {
    pub violations: Vec<ZdrViolation>,
}

impl Default for PrivacyAuditLog {
    /// An empty log.
    fn default() -> (log: Self)
        ensures
            log.violations@.len() == 0,
    {
        PrivacyAuditLog { violations: Vec::new() }
    }
}

impl PrivacyAuditLog {
    /// Record a potential ZDR violation.  A record is appended exactly when
    /// the level prefers ZDR (Sensitive or Strict) and the backend has no
    /// ZDR contract; anything else leaves the log unchanged.  The record
    /// carries the arguments and the wall-clock time.
    pub fn record_violation(
        &mut self,
        privacy_level: PrivacyLevel,
        backend: &str,
        backend_has_zdr: bool,
        matched_patterns: Vec<String>,
    )
        ensures
            privacy_level.spec_prefers_zdr() && !backend_has_zdr ==> exists |v: ZdrViolation|
                #![trigger old(self).violations@.push(v)]
                {
                    &&& v.privacy_level == privacy_level
                    &&& v.backend@ == backend@
                    &&& v.backend_has_zdr == backend_has_zdr
                    &&& v.matched_patterns == matched_patterns
                    &&& final(self).violations@ == old(self).violations@.push(v)
                },
            !(privacy_level.spec_prefers_zdr() && !backend_has_zdr) ==> final(self).violations@
                == old(self).violations@,
    {
        if privacy_level.prefers_zdr() && !backend_has_zdr {
            let timestamp = clock::unix_now_secs();
            let v = ZdrViolation {
                timestamp,
                privacy_level,
                backend: backend.to_owned(),
                backend_has_zdr,
                matched_patterns,
            };
            self.violations.push(v);
        }
    }

    /// Get all violations, oldest first.
    pub fn violations(&self) -> (r: &[ZdrViolation])
        ensures
            r@ == self.violations@,
    {
        self.violations.as_slice()
    }

    /// Get the last `n` violations (all of them when fewer are on record).
    pub fn recent(&self, n: usize) -> (r: &[ZdrViolation])
        ensures
            self.violations@.len() <= n ==> r@ == self.violations@,
            self.violations@.len() > n ==> r@ == self.violations@.subrange(
                self.violations@.len() - n,
                self.violations@.len() as int,
            ),
    {
        let len = self.violations.len();
        if len <= n {
            self.violations.as_slice()
        } else {
            &self.violations[len - n..len]
        }
    }
}

/// The ZDR directory: which backends have a zero-data-retention contract.
/// Backends without an entry count as non-ZDR.
#[derive(Debug, Clone, Default)]
pub struct ZdrMap {
    pub entries: Vec<(String, bool)>,
}

/// The ZDR flag of `name` in the entry list: the first entry with that
/// name decides; absent names are non-ZDR.
pub open spec fn spec_zdr_entries(s: Seq<(String, bool)>, name: Seq<char>) -> bool
    decreases s.len(),
{
    if s.len() == 0 {
        false
    } else if s[0].0@ == name {
        s[0].1
    } else {
        spec_zdr_entries(s.subrange(1, s.len() as int), name)
    }
}

/// Updating the first entry of `key` changes the lookup of `key` alone.
proof fn lemma_zdr_update(s: Seq<(String, bool)>, i: int, e: (String, bool), k: Seq<char>)
    requires
        0 <= i < s.len(),
        s[i].0@ == e.0@,
        forall |j: int| 0 <= j < i ==> (#[trigger] s[j]).0@ != e.0@,
    ensures
        spec_zdr_entries(s.update(i, e), k) == if k == e.0@ {
            e.1
        } else {
            spec_zdr_entries(s, k)
        },
    decreases s.len(),
{
    let t = s.update(i, e);
    if i == 0 {
        assert(t[0] == e);
        assert(t.subrange(1, t.len() as int) =~= s.subrange(1, s.len() as int));
    } else {
        assert(t[0] == s[0]);
        assert(s[0].0@ != e.0@);
        let st = s.subrange(1, s.len() as int);
        assert(t.subrange(1, t.len() as int) =~= st.update(i - 1, e));
        assert(forall |j: int| 0 <= j < st.len() ==> st[j] == s[j + 1]);
        lemma_zdr_update(st, i - 1, e, k);
    }
}

/// Appending an entry for a new key changes the lookup of that key alone.
proof fn lemma_zdr_push(s: Seq<(String, bool)>, e: (String, bool), k: Seq<char>)
    requires
        forall |j: int| 0 <= j < s.len() ==> (#[trigger] s[j]).0@ != e.0@,
    ensures
        spec_zdr_entries(s.push(e), k) == if k == e.0@ {
            e.1
        } else {
            spec_zdr_entries(s, k)
        },
    decreases s.len(),
{
    let t = s.push(e);
    if s.len() == 0 {
        assert(t[0] == e);
        assert(t.subrange(1, t.len() as int) =~= Seq::<(String, bool)>::empty());
        if k != e.0@ {
            assert(spec_zdr_entries(t, k) == spec_zdr_entries(
                t.subrange(1, t.len() as int),
                k,
            ));
        }
    } else {
        assert(t[0] == s[0]);
        let st = s.subrange(1, s.len() as int);
        assert(t.subrange(1, t.len() as int) =~= st.push(e));
        assert(forall |j: int| 0 <= j < st.len() ==> st[j] == s[j + 1]);
        lemma_zdr_push(st, e, k);
        if s[0].0@ == k {
            assert(spec_zdr_entries(s, k) == s[0].1);
            assert(spec_zdr_entries(t, k) == t[0].1);
        } else {
            assert(spec_zdr_entries(t, k) == spec_zdr_entries(st.push(e), k));
            assert(spec_zdr_entries(s, k) == spec_zdr_entries(st, k));
        }
    }
}

impl ZdrMap {
    /// Whether `name` is recorded as ZDR.
    pub open spec fn spec_zdr(&self, name: Seq<char>) -> bool {
        spec_zdr_entries(self.entries@, name)
    }

    /// An empty directory: every backend counts as non-ZDR.
    pub fn new() -> (m: Self)
        ensures
            m.entries@.len() == 0,
            forall |k: Seq<char>| !m.spec_zdr(k),
    {
        ZdrMap { entries: Vec::new() }
    }

    /// Set the ZDR flag of one backend, leaving every other unchanged.
    pub fn insert(&mut self, backend: &str, zdr: bool)
        ensures
            forall |k: Seq<char>| final(self).spec_zdr(k) == if k == backend@ {
                zdr
            } else {
                old(self).spec_zdr(k)
            },
    {
        let key: String = backend.to_owned();
        let n = self.entries.len();
        let mut i: usize = 0;
        while i < n
            invariant
                n == self.entries@.len(),
                0 <= i <= n,
                forall |j: int| 0 <= j < i ==> (#[trigger] self.entries@[j]).0@ != backend@,
                key@ == backend@,
                *self == *old(self),
            decreases n - i,
        {
            if self.entries[i].0 == key {
                let ghost pre = self.entries@;
                let slot = &mut self.entries[i];
                slot.1 = zdr;
                proof {
                    let e = self.entries@[i as int];
                    assert(self.entries@ == pre.update(i as int, e));
                    assert(e.0@ == backend@ && e.1 == zdr);
                    assert forall |k: Seq<char>| final(self).spec_zdr(k) == (if k == backend@ {
                        zdr
                    } else {
                        old(self).spec_zdr(k)
                    }) by {
                        lemma_zdr_update(pre, i as int, e, k);
                    }
                }
                return ;
            }
            i = i + 1;
        }
        let ghost pre = self.entries@;
        self.entries.push((key, zdr));
        proof {
            let e = self.entries@[pre.len() as int];
            assert(self.entries@ == pre.push(e));
            assert(e.0@ == backend@ && e.1 == zdr);
            assert forall |k: Seq<char>| final(self).spec_zdr(k) == (if k == backend@ {
                zdr
            } else {
                old(self).spec_zdr(k)
            }) by {
                lemma_zdr_push(pre, e, k);
            }
        }
    }

    /// Look up the ZDR flag of a backend; unknown backends are non-ZDR.
    pub fn zdr(&self, backend: &str) -> (r: bool)
        ensures
            r == self.spec_zdr(backend@),
    {
        let key: String = backend.to_owned();
        let n = self.entries.len();
        let mut i: usize = 0;
        while i < n
            invariant
                n == self.entries@.len(),
                0 <= i <= n,
                forall |j: int| 0 <= j < i ==> (#[trigger] self.entries@[j]).0@ != backend@,
                key@ == backend@,
            decreases n - i,
        {
            if self.entries[i].0 == key {
                proof {
                    lemma_zdr_first_match(self.entries@, backend@, i as int);
                }
                return self.entries[i].1;
            }
            i = i + 1;
        }
        proof {
            lemma_zdr_no_match(self.entries@, backend@);
        }
        false
    }
}

/// A lookup stops at the first entry with the name.
proof fn lemma_zdr_first_match(s: Seq<(String, bool)>, name: Seq<char>, i: int)
    requires
        0 <= i < s.len(),
        s[i].0@ == name,
        forall |j: int| 0 <= j < i ==> (#[trigger] s[j]).0@ != name,
    ensures
        spec_zdr_entries(s, name) == s[i].1,
    decreases i,
{
    if i > 0 {
        let st = s.subrange(1, s.len() as int);
        assert(forall |j: int| 0 <= j < st.len() ==> st[j] == s[j + 1]);
        lemma_zdr_first_match(st, name, i - 1);
    }
}

/// A lookup of a name with no entry is non-ZDR.
proof fn lemma_zdr_no_match(s: Seq<(String, bool)>, name: Seq<char>)
    requires
        forall |j: int| 0 <= j < s.len() ==> (#[trigger] s[j]).0@ != name,
    ensures
        !spec_zdr_entries(s, name),
    decreases s.len(),
{
    if s.len() > 0 {
        let st = s.subrange(1, s.len() as int);
        assert(forall |j: int| 0 <= j < st.len() ==> st[j] == s[j + 1]);
        lemma_zdr_no_match(st, name);
    }
}

/// The members of `backends` that the directory records as ZDR, in input
/// order, duplicates included.
pub open spec fn spec_zdr_filter(m: ZdrMap, backends: Seq<Seq<char>>) -> Seq<Seq<char>>
    decreases backends.len(),
{
    if backends.len() == 0 {
        Seq::<Seq<char>>::empty()
    } else {
        let rest = spec_zdr_filter(m, backends.drop_last());
        if m.spec_zdr(backends.last()) {
            rest.push(backends.last())
        } else {
            rest
        }
    }
}

/// Filter backends by ZDR status: with `require_zdr` only the candidates
/// recorded as ZDR survive, in input order; without it the candidates pass
/// through verbatim.
pub fn filter_zdr_backends(
    backends: &Vec<String>,
    backend_zdr_map: &ZdrMap,
    require_zdr: bool,
) -> (r: Vec<String>)
    ensures
        require_zdr ==> r.deep_view() == spec_zdr_filter(*backend_zdr_map, backends.deep_view()),
        !require_zdr ==> r.deep_view() == backends.deep_view(),
{
    let ghost all = backends.deep_view();
    let mut out: Vec<String> = Vec::new();
    let n = backends.len();
    let mut i: usize = 0;
    proof {
        assert(all.take(0) =~= Seq::<Seq<char>>::empty());
        assert(out.deep_view() =~= spec_zdr_filter(*backend_zdr_map, all.take(0)));
    }
    while i < n
        invariant
            n == backends@.len(),
            all == backends.deep_view(),
            all.len() == n,
            forall |j: int| 0 <= j < n ==> all[j] == (#[trigger] backends@[j])@,
            0 <= i <= n,
            require_zdr ==> out.deep_view() == spec_zdr_filter(*backend_zdr_map, all.take(i as int)),
            !require_zdr ==> out.deep_view() == all.take(i as int),
        decreases n - i,
    {
        proof {
            assert(all.take(i + 1).drop_last() =~= all.take(i as int));
            assert(all.take(i + 1).last() == all[i as int]);
        }
        let ghost pre = out.deep_view();
        if !require_zdr || backend_zdr_map.zdr(backends[i].as_str()) {
            out.push(backends[i].clone());
            proof {
                assert(out.deep_view() =~= pre.push(all[i as int]));
            }
        }
        proof {
            if require_zdr {
                assert(out.deep_view() =~= spec_zdr_filter(*backend_zdr_map, all.take(i + 1)));
            } else {
                assert(out.deep_view() =~= all.take(i + 1));
            }
        }
        i = i + 1;
    }
    proof {
        assert(all.take(n as int) =~= all);
    }
    out
}

/// Get the ZDR-compliant backends from a list of candidate names, in input
/// order.
pub fn get_zdr_backends(backends: &Vec<String>, backend_zdr_map: &ZdrMap) -> (r: Vec<String>)
    ensures
        r.deep_view() == spec_zdr_filter(*backend_zdr_map, backends.deep_view()),
{
    filter_zdr_backends(backends, backend_zdr_map, true)
}

} // verus!
