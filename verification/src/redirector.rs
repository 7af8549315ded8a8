//! Redirect configurations and the resolution policy over DNS TXT payloads.

use vstd::prelude::*;

use crate::grammar::chars_of;
use crate::grammar::decimal_value;
use crate::grammar::eq_chars_str;
use crate::grammar::field_value;
use crate::grammar::is_u8_decimal;
use crate::grammar::lemma_decimal_nonneg;
use crate::grammar::lookup_value;
use crate::grammar::parse_u8_decimal;
use crate::grammar::split_fields;
use crate::target::url_accepts;
use crate::target::TargetUrl;

verus! {

/// The outcome of resolving a hostname that did not yield a usable redirect.
#[derive(Debug, PartialEq, Eq, Structural)]
pub enum RedirectorError {
    /// The TXT lookup itself failed: the resolver's error is opaque here and
    /// not distinguished further.
    ResolverError,
    /// DNS answered, but no returned payload decoded to a configuration.
    NoValidRedirect,
}

/// Why one TXT payload failed to decode. Local to one record: the resolution
/// policy discards such records and never surfaces these.
#[derive(Debug, PartialEq)]
pub enum RedirectParseError {
    /// No `v` field.
    MissingVersion,
    /// The `v` field is not an unsigned 8-bit decimal integer.
    InvalidVersion,
    /// The declared version is not the one supported version, `1`.
    UnsupportedVersion(u8),
    /// No `target` field.
    MissingTarget,
    /// The `target` field is not an absolute URL; carries the URL error.
    InvalidTarget(url::ParseError),
}

/// The TXT lookup failed; stands for whatever error the DNS transport gave.
#[derive(Debug, PartialEq, Eq, Structural)]
pub struct ResolverFailure;

/// One decoded redirect configuration: where to send the request, and
/// whether to carry the request's own path through to the destination.
#[derive(Debug, PartialEq)]
pub struct Redirect {
    pub target: TargetUrl,
    pub replace_path: bool,
}

/// The payload `s` declares the one supported schema version and names a
/// target that the URL parser accepts: decoding it yields a configuration.
pub open spec fn spec_parse_ok(s: Seq<char>) -> bool {
    &&& field_value(s, "v"@) matches Some(version) && is_u8_decimal(version) && decimal_value(
        version,
    ) == 1
    &&& field_value(s, "target"@) matches Some(target) && url_accepts(target)
}

/// The target text that the payload `s` names.
pub open spec fn spec_target(s: Seq<char>) -> Seq<char> {
    field_value(s, "target"@)->Some_0
}

/// Whether the payload `s` asks for path replacement: its last
/// `replace_path` field holds exactly `true`.
pub open spec fn spec_replace_path(s: Seq<char>) -> bool {
    field_value(s, "replace_path"@) == Some("true"@)
}

/// `red` is the configuration that the payload `s` decodes to.
pub open spec fn redirect_matches(s: Seq<char>, red: Redirect) -> bool {
    &&& red.target.is_parse_of(spec_target(s))
    &&& red.replace_path == spec_replace_path(s)
}

/// What decoding the payload `s` returns, clause by clause in the grammar's
/// evaluation order. The error carried by `InvalidTarget` is the URL
/// parser's own and is not pinned further.
pub open spec fn parse_result_matches(
    s: Seq<char>,
    r: Result<Redirect, RedirectParseError>,
) -> bool {
    match field_value(s, "v"@) {
        None => r == Err::<Redirect, RedirectParseError>(RedirectParseError::MissingVersion),
        Some(version) => if !is_u8_decimal(version) {
            r == Err::<Redirect, RedirectParseError>(RedirectParseError::InvalidVersion)
        } else if decimal_value(version) != 1 {
            r == Err::<Redirect, RedirectParseError>(
                RedirectParseError::UnsupportedVersion(decimal_value(version) as u8),
            )
        } else {
            match field_value(s, "target"@) {
                None => r == Err::<Redirect, RedirectParseError>(RedirectParseError::MissingTarget),
                Some(target) => if !url_accepts(target) {
                    r matches Err(RedirectParseError::InvalidTarget(_))
                } else {
                    r matches Ok(red) && redirect_matches(s, red)
                },
            }
        },
    }
}

impl Redirect {
    /// Decode one TXT record payload into a redirect configuration.
    ///
    /// The grammar: fields separated by `;` and following spaces, each split
    /// at its first `=` (values may contain `=`; a field without `=` is a
    /// key with an empty value), unknown keys ignored, duplicate keys
    /// resolved last-occurrence-wins. `v` must be the decimal numeral `1`;
    /// `target` must be an absolute URL; `replace_path` is `true` exactly
    /// when its value is the literal `true`.
    pub fn parse(config: &str) -> (r: Result<Redirect, RedirectParseError>)
        ensures
            parse_result_matches(config@, r),
            r is Ok <==> spec_parse_ok(config@),
    {
        let chars = chars_of(config);
        let fields = split_fields(&chars);
        let version_text = match lookup_value(&fields, "v") {
            None => {
                return Err(RedirectParseError::MissingVersion);
            },
            Some(text) => text,
        };
        let version = match parse_u8_decimal(&version_text) {
            None => {
                return Err(RedirectParseError::InvalidVersion);
            },
            Some(n) => n,
        };
        if version != 1 {
            proof {
                lemma_decimal_nonneg(version_text@);
            }
            return Err(RedirectParseError::UnsupportedVersion(version));
        }
        let target_text = match lookup_value(&fields, "target") {
            None => {
                return Err(RedirectParseError::MissingTarget);
            },
            Some(text) => text,
        };
        let target = match TargetUrl::parse_chars(&target_text) {
            Err(e) => {
                return Err(RedirectParseError::InvalidTarget(e));
            },
            Ok(t) => t,
        };
        let replace_path = match lookup_value(&fields, "replace_path") {
            None => false,
            Some(text) => eq_chars_str(&text, "true"),
        };
        Ok(Redirect { target, replace_path })
    }

    /// The destination URL for a request whose path is `source`: the
    /// configured target unchanged, or, under `replace_path`, the target
    /// with its path component replaced by `source` verbatim (scheme, host,
    /// port, query and fragment kept).
    pub fn target_from(&self, source: &str) -> (r: String)
        ensures
            !self.replace_path ==> r@ == self.target.text(),
            self.replace_path ==> r@ == self.target.prefix_text() + source@
                + self.target.suffix_text(),
    {
        if self.replace_path {
            self.target.with_path(source)
        } else {
            self.target.as_string()
        }
    }
}

/// The DNS name whose TXT records configure redirects for `hostname`.
pub fn lookup_name(hostname: &str) -> (r: String)
    ensures
        r@ == "_redirect."@ + hostname@,
{
    let mut r = String::from_str("_redirect.");
    r.append(hostname);
    r
}

/// The selection policy over decoded results: the first configuration that
/// decoded, in the order the resolver returned the records; records that
/// failed to decode are discarded. Chosen deterministically so that repeated
/// resolutions of one answer behave alike.
pub open spec fn spec_select(rs: Seq<Result<Redirect, RedirectParseError>>) -> Result<
    Redirect,
    RedirectorError,
>
    decreases rs.len(),
{
    if rs.len() == 0 {
        Err(RedirectorError::NoValidRedirect)
    } else {
        match rs[0] {
            Ok(red) => Ok(red),
            Err(_) => spec_select(rs.drop_first()),
        }
    }
}

/// Index of the first payload that decodes, or `ps.len()` if none does.
pub open spec fn first_valid(ps: Seq<Seq<char>>) -> int
    decreases ps.len(),
{
    if ps.len() == 0 {
        0
    } else if spec_parse_ok(ps[0]) {
        0
    } else {
        1 + first_valid(ps.drop_first())
    }
}

/// `first_valid` is the least index whose payload decodes, and `ps.len()`
/// exactly when none does.
pub proof fn lemma_first_valid(ps: Seq<Seq<char>>)
    ensures
        0 <= first_valid(ps) <= ps.len(),
        first_valid(ps) < ps.len() ==> spec_parse_ok(ps[first_valid(ps)]),
        forall|j: int| 0 <= j < first_valid(ps) ==> !spec_parse_ok(ps[j]),
    decreases ps.len(),
{
    if ps.len() > 0 && !spec_parse_ok(ps[0]) {
        lemma_first_valid(ps.drop_first());
        assert forall|j: int| 0 <= j < first_valid(ps) implies !spec_parse_ok(ps[j]) by {
            if j > 0 {
                assert(ps.drop_first()[j - 1] == ps[j]);
            }
        }
    }
}

/// `r` is what resolving yields once the TXT lookup answered with the
/// payloads `ps`: the configuration of the first payload that decodes, or
/// `NoValidRedirect` when none does.
pub open spec fn resolve_matches(ps: Seq<Seq<char>>, r: Result<Redirect, RedirectorError>) -> bool {
    if first_valid(ps) == ps.len() {
        r == Err::<Redirect, RedirectorError>(RedirectorError::NoValidRedirect)
    } else {
        r matches Ok(red) && redirect_matches(ps[first_valid(ps)], red)
    }
}

/// Decode every returned payload, in order; failures stay in place, as the
/// lookup step leaves them for the selection policy to discard.
pub fn parse_records(records: &Vec<String>) -> (out: Vec<Result<Redirect, RedirectParseError>>)
    ensures
        out@.len() == records@.len(),
        forall|i: int|
            0 <= i < records@.len() ==> parse_result_matches(records@[i]@, #[trigger] out@[i]),
        forall|i: int|
            0 <= i < records@.len() ==> ((#[trigger] out@[i]) is Ok <==> spec_parse_ok(
                records@[i]@,
            )),
{
    let mut out: Vec<Result<Redirect, RedirectParseError>> = Vec::new();
    let mut i: usize = 0;
    while i < records.len()
        invariant
            i <= records@.len(),
            out@.len() == i,
            forall|j: int| 0 <= j < i ==> parse_result_matches(records@[j]@, #[trigger] out@[j]),
            forall|j: int|
                0 <= j < i ==> ((#[trigger] out@[j]) is Ok <==> spec_parse_ok(records@[j]@)),
        decreases records@.len() - i,
    {
        out.push(Redirect::parse(records[i].as_str()));
        i = i + 1;
    }
    out
}

/// Apply the selection policy to the decoded results.
pub fn select_redirect(parsed: Vec<Result<Redirect, RedirectParseError>>) -> (r: Result<
    Redirect,
    RedirectorError,
>)
    ensures
        r == spec_select(parsed@),
{
    let mut rest = parsed;
    loop
        invariant
            spec_select(rest@) == spec_select(parsed@),
        decreases rest@.len(),
    {
        if rest.is_empty() {
            return Err(RedirectorError::NoValidRedirect);
        }
        let ghost before = rest@;
        let head = rest.remove(0);
        proof {
            assert(rest@ =~= before.drop_first());
        }
        match head {
            Ok(red) => {
                return Ok(red);
            },
            Err(_) => {},
        }
    }
}

/// The selection policy over results that decode `ps` lands on the first
/// payload of `ps` that decodes.
proof fn lemma_select_matches(ps: Seq<Seq<char>>, rs: Seq<Result<Redirect, RedirectParseError>>)
    requires
        ps.len() == rs.len(),
        forall|i: int| 0 <= i < ps.len() ==> parse_result_matches(ps[i], #[trigger] rs[i]),
        forall|i: int| 0 <= i < ps.len() ==> ((#[trigger] rs[i]) is Ok <==> spec_parse_ok(ps[i])),
    ensures
        resolve_matches(ps, spec_select(rs)),
    decreases ps.len(),
{
    if ps.len() > 0 {
        match rs[0] {
            Ok(red) => {
                assert(spec_parse_ok(ps[0]));
                assert(redirect_matches(ps[0], red));
            },
            Err(_) => {
                assert(!spec_parse_ok(ps[0]));
                let pt = ps.drop_first();
                let rt = rs.drop_first();
                assert forall|i: int| 0 <= i < pt.len() implies parse_result_matches(
                    pt[i],
                    #[trigger] rt[i],
                ) by {
                    assert(pt[i] == ps[i + 1]);
                    assert(rt[i] == rs[i + 1]);
                }
                assert forall|i: int| 0 <= i < pt.len() implies ((#[trigger] rt[i]) is Ok
                    <==> spec_parse_ok(pt[i])) by {
                    assert(pt[i] == ps[i + 1]);
                    assert(rt[i] == rs[i + 1]);
                }
                lemma_select_matches(pt, rt);
                lemma_first_valid(pt);
                if first_valid(pt) < pt.len() {
                    assert(ps[first_valid(ps)] == pt[first_valid(pt)]);
                }
            },
        }
    }
}

/// Resolve from the TXT lookup's outcome. A failed lookup is final and
/// opaque; an answer runs every payload through the parser and the
/// selection policy picks one configuration.
pub fn resolve_records(outcome: Result<Vec<String>, ResolverFailure>) -> (r: Result<
    Redirect,
    RedirectorError,
>)
    ensures
        outcome is Err ==> r == Err::<Redirect, RedirectorError>(RedirectorError::ResolverError),
        outcome matches Ok(records) ==> resolve_matches(records.deep_view(), r),
{
    match outcome {
        Err(_) => Err(RedirectorError::ResolverError),
        Ok(records) => {
            let parsed = parse_records(&records);
            let r = select_redirect(parsed);
            proof {
                let ps = records.deep_view();
                assert(ps.len() == records@.len());
                assert forall|i: int| 0 <= i < ps.len() implies ps[i] == records@[i]@ by {}
                lemma_select_matches(ps, parsed@);
            }
            r
        },
    }
}

/// A lookup whose payloads all fail to decode resolves to `NoValidRedirect`.
pub proof fn lemma_only_invalid_payloads(ps: Seq<Seq<char>>, r: Result<Redirect, RedirectorError>)
    requires
        forall|i: int| 0 <= i < ps.len() ==> !spec_parse_ok(#[trigger] ps[i]),
        resolve_matches(ps, r),
    ensures
        r == Err::<Redirect, RedirectorError>(RedirectorError::NoValidRedirect),
{
    lemma_first_valid(ps);
}

/// When exactly one payload decodes, resolution returns its configuration,
/// wherever it stands among the others.
pub proof fn lemma_single_valid_payload(
    ps: Seq<Seq<char>>,
    j: int,
    r: Result<Redirect, RedirectorError>,
)
    requires
        0 <= j < ps.len(),
        spec_parse_ok(ps[j]),
        forall|i: int| 0 <= i < ps.len() && i != j ==> !spec_parse_ok(#[trigger] ps[i]),
        resolve_matches(ps, r),
    ensures
        r matches Ok(red) && redirect_matches(ps[j], red),
{
    lemma_first_valid(ps);
    assert(first_valid(ps) == j);
}

/// Resolution is deterministic: two outcomes for one list of payloads agree,
/// and when they carry configurations, the configurations name one target
/// text and one path policy. There is no randomness in the selection.
pub proof fn lemma_resolve_deterministic(
    ps: Seq<Seq<char>>,
    r1: Result<Redirect, RedirectorError>,
    r2: Result<Redirect, RedirectorError>,
)
    requires
        resolve_matches(ps, r1),
        resolve_matches(ps, r2),
    ensures
        r1 is Ok <==> r2 is Ok,
        r1 is Err ==> r1 == r2,
        r1 matches Ok(a) ==> r2 matches Ok(b) ==> (a.target.text() == b.target.text()
            && a.replace_path == b.replace_path),
{
}

} // verus!
