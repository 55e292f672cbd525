//! Comparing local and Salesforce snapshots fixture by fixture, along the
//! scopes that each fixture selects.

use vstd::prelude::*;

use crate::oracle::conformance::{ConformanceFixture, ConformanceManifest};
use crate::oracle::{
    snapshot_names_error, validate_snapshot_names, ComparisonScope, FixtureObservation,
    OracleProvider, OracleSnapshot,
};
use crate::text::{ascii_lower, chars_equal, chars_of, lower_chars, push_str, string_from_chars};

verus! {

/// How one selected scope of one fixture compared.
#[derive(Clone, Debug)]
pub struct DimensionComparison {
    pub scope: ComparisonScope,
    pub matched: bool,
    pub difference: Option<String>,
}

/// How one fixture compared, scope by scope, in the fixture's scope order.
#[derive(Clone, Debug)]
pub struct FixtureComparison {
    pub name: String,
    pub dimensions: Vec<DimensionComparison>,
}

/// Why two snapshots cannot be compared, if they cannot: a provider on
/// the wrong side, or a bad or repeated fixture name in either.
pub open spec fn comparison_error(local: OracleSnapshot, salesforce: OracleSnapshot) -> Option<Seq<char>> {
    if local.provider != OracleProvider::ApexExec {
        Some("local snapshot provider must be `apexExec`"@)
    } else if salesforce.provider != OracleProvider::Salesforce {
        Some("Salesforce snapshot provider must be `salesforce`"@)
    } else if snapshot_names_error(local.fixtures@, 0) is Some {
        snapshot_names_error(local.fixtures@, 0)
    } else {
        snapshot_names_error(salesforce.fixtures@, 0)
    }
}

/// Position of the first observation named `name`, whatever the case.
pub open spec fn observation_named(fixtures: Seq<FixtureObservation>, name: Seq<char>, k: int) -> Option<int>
    decreases fixtures.len() - k,
{
    if k < 0 || k >= fixtures.len() {
        None
    } else if ascii_lower(fixtures[k].name@) == ascii_lower(name) {
        Some(k)
    } else {
        observation_named(fixtures, name, k + 1)
    }
}

/// The text of a difference between two renderings.
pub open spec fn difference_text(local: Seq<char>, salesforce: Seq<char>) -> Seq<char> {
    "local="@ + local + " salesforce="@ + salesforce
}

/// `dimension` is the comparison of `scope` between the observations at
/// `local` and `salesforce`, each rendered by `render`: matched when the
/// two renderings agree, with both renderings as the difference otherwise;
/// a missing observation is a difference of its own.
pub open spec fn compares<F: Fn(ComparisonScope, &FixtureObservation) -> String>(
    dimension: DimensionComparison,
    scope: ComparisonScope,
    local: Option<FixtureObservation>,
    salesforce: Option<FixtureObservation>,
    render: F,
) -> bool {
    &&& dimension.scope == scope
    &&& match (local, salesforce) {
        (Some(l), Some(s)) => exists|a: String, b: String|
            #![trigger render.ensures((scope, &l), a), render.ensures((scope, &s), b)]
            {
                &&& render.ensures((scope, &l), a)
                &&& render.ensures((scope, &s), b)
                &&& dimension.matched == (a@ == b@)
                &&& text_of(dimension.difference) == if a@ == b@ {
                    None
                } else {
                    Some(difference_text(a@, b@))
                }
            },
        (None, _) => !dimension.matched && text_of(dimension.difference) == Some(
            "local snapshot is missing fixture"@,
        ),
        (_, None) => !dimension.matched && text_of(dimension.difference) == Some(
            "Salesforce snapshot is missing fixture"@,
        ),
    }
}

/// An optional text as plain characters.
pub open spec fn text_of(o: Option<String>) -> Option<Seq<char>> {
    match o {
        Some(s) => Some(s@),
        None => None,
    }
}

/// The observation at a position found by name, if one was found.
pub open spec fn found(fixtures: Seq<FixtureObservation>, at: Option<int>) -> Option<FixtureObservation> {
    match at {
        Some(k) => Some(fixtures[k]),
        None => None,
    }
}

/// An optional borrowed observation as a value.
pub open spec fn observed(o: Option<&FixtureObservation>) -> Option<FixtureObservation> {
    match o {
        Some(x) => Some(*x),
        None => None,
    }
}

/// `comparison` compares `fixture` between the local observations `local`
/// and the Salesforce observations `salesforce`, scope by scope.
pub open spec fn fixture_compares<F: Fn(ComparisonScope, &FixtureObservation) -> String>(
    comparison: FixtureComparison,
    fixture: ConformanceFixture,
    local: Seq<FixtureObservation>,
    salesforce: Seq<FixtureObservation>,
    render: F,
) -> bool {
    &&& comparison.name@ == fixture.name@
    &&& comparison.dimensions@.len() == fixture.compare@.len()
    &&& forall|j: int| 0 <= j < fixture.compare@.len() ==> compares(
        #[trigger] comparison.dimensions@[j],
        fixture.compare@[j],
        found(local, observation_named(local, fixture.name@, 0)),
        found(salesforce, observation_named(salesforce, fixture.name@, 0)),
        render,
    )
}

/// Position of the first observation named `name`, whatever the case.
fn find_observation(fixtures: &Vec<FixtureObservation>, name: &str) -> (result: Option<usize>)
    ensures
        result matches Some(k) ==> k < fixtures@.len(),
        match observation_named(fixtures@, name@, 0) {
            Some(j) => result matches Some(k) && k as int == j,
            None => result is None,
        },
{
    let lower = lower_chars(chars_of(name).as_slice());
    let mut k: usize = 0;
    while k < fixtures.len()
        invariant
            lower@ == ascii_lower(name@),
            k <= fixtures@.len(),
            observation_named(fixtures@, name@, 0) == observation_named(fixtures@, name@, k as int),
        decreases fixtures@.len() - k,
    {
        let candidate = lower_chars(chars_of(fixtures[k].name.as_str()).as_slice());
        if chars_equal(candidate.as_slice(), lower.as_slice()) {
            return Some(k);
        }
        k += 1;
    }
    None
}

/// The comparison of `scope` between two optional observations.
fn compare_dimension<F: Fn(ComparisonScope, &FixtureObservation) -> String>(
    scope: ComparisonScope,
    local: Option<&FixtureObservation>,
    salesforce: Option<&FixtureObservation>,
    render: &F,
) -> (result: DimensionComparison)
    requires
        forall|s: ComparisonScope, o: &FixtureObservation| render.requires((s, o)),
    ensures
        compares(result, scope, observed(local), observed(salesforce), *render),
{
    match (local, salesforce) {
        (Some(l), Some(s)) => {
            let left = render(scope, l);
            let right = render(scope, s);
            let matched = chars_equal(chars_of(left.as_str()).as_slice(), chars_of(right.as_str()).as_slice());
            let difference = if matched {
                None
            } else {
                let mut text: Vec<char> = Vec::new();
                push_str(&mut text, "local=");
                push_str(&mut text, left.as_str());
                push_str(&mut text, " salesforce=");
                push_str(&mut text, right.as_str());
                assert(text@ =~= difference_text(left@, right@));
                Some(string_from_chars(text.as_slice()))
            };
            let result = DimensionComparison { scope, matched, difference };
            assert(render.ensures((scope, l), left) && render.ensures((scope, s), right));
            result
        },
        (None, _) => DimensionComparison {
            scope,
            matched: false,
            difference: Some("local snapshot is missing fixture".to_string()),
        },
        (_, None) => DimensionComparison {
            scope,
            matched: false,
            difference: Some("Salesforce snapshot is missing fixture".to_string()),
        },
    }
}

/// Compares each manifest fixture between the local and the Salesforce
/// snapshot, in manifest order, along the scopes it selects, with `render`
/// writing out one scope of one observation. Fails when a snapshot comes
/// from the wrong provider or names a fixture badly or twice.
pub fn compare<F: Fn(ComparisonScope, &FixtureObservation) -> String>(
    manifest: &ConformanceManifest,
    local: &OracleSnapshot,
    salesforce: &OracleSnapshot,
    render: F,
) -> (result: Result<Vec<FixtureComparison>, String>)
    requires
        forall|s: ComparisonScope, o: &FixtureObservation| render.requires((s, o)),
    ensures
        match comparison_error(*local, *salesforce) {
            Some(message) => result matches Err(m) && m@ == message,
            None => result matches Ok(fixtures) && fixtures@.len() == manifest.spec_fixtures().len()
                && forall|i: int| 0 <= i < fixtures@.len() ==> fixture_compares(
                #[trigger] fixtures@[i],
                manifest.spec_fixtures()[i],
                local.fixtures@,
                salesforce.fixtures@,
                render,
            ),
        },
{
    if !matches!(local.provider, OracleProvider::ApexExec) {
        return Err("local snapshot provider must be `apexExec`".to_string());
    }
    if !matches!(salesforce.provider, OracleProvider::Salesforce) {
        return Err("Salesforce snapshot provider must be `salesforce`".to_string());
    }
    match validate_snapshot_names(local) {
        Ok(()) => {},
        Err(message) => return Err(message),
    }
    match validate_snapshot_names(salesforce) {
        Ok(()) => {},
        Err(message) => return Err(message),
    }
    let fixtures = manifest.fixtures();
    let mut out: Vec<FixtureComparison> = Vec::new();
    let mut i: usize = 0;
    while i < fixtures.len()
        invariant
            forall|s: ComparisonScope, o: &FixtureObservation| render.requires((s, o)),
            fixtures@ == manifest.spec_fixtures(),
            i <= fixtures@.len(),
            out@.len() == i,
            forall|k: int| 0 <= k < i ==> fixture_compares(
                #[trigger] out@[k],
                fixtures@[k],
                local.fixtures@,
                salesforce.fixtures@,
                render,
            ),
        decreases fixtures@.len() - i,
    {
        let fixture = &fixtures[i];
        let local_at = find_observation(&local.fixtures, fixture.name.as_str());
        let salesforce_at = find_observation(&salesforce.fixtures, fixture.name.as_str());
        let local_observation = match local_at {
            Some(k) => Some(&local.fixtures[k]),
            None => None,
        };
        let salesforce_observation = match salesforce_at {
            Some(k) => Some(&salesforce.fixtures[k]),
            None => None,
        };
        assert(observed(local_observation) == found(local.fixtures@, observation_named(local.fixtures@, fixture.name@, 0)));
        assert(observed(salesforce_observation) == found(
            salesforce.fixtures@,
            observation_named(salesforce.fixtures@, fixture.name@, 0),
        ));
        let mut dimensions: Vec<DimensionComparison> = Vec::new();
        let mut j: usize = 0;
        while j < fixture.compare.len()
            invariant
                forall|s: ComparisonScope, o: &FixtureObservation| render.requires((s, o)),
                j <= fixture.compare@.len(),
                dimensions@.len() == j,
                forall|q: int| 0 <= q < j ==> compares(
                    #[trigger] dimensions@[q],
                    fixture.compare@[q],
                    observed(local_observation),
                    observed(salesforce_observation),
                    render,
                ),
            decreases fixture.compare@.len() - j,
        {
            dimensions.push(compare_dimension(fixture.compare[j], local_observation, salesforce_observation, &render));
            j += 1;
        }
        out.push(FixtureComparison { name: fixture.name.clone(), dimensions });
        i += 1;
    }
    Ok(out)
}

/// Whether a dimension counts toward a tally over `scope` (every scope when
/// `None`).
pub open spec fn counted(dimension: DimensionComparison, scope: Option<ComparisonScope>) -> bool {
    match scope {
        Some(s) => dimension.scope == s,
        None => true,
    }
}

/// Matched and total dimensions of the first `n` dimensions of one fixture.
pub open spec fn dimension_tally(dimensions: Seq<DimensionComparison>, scope: Option<ComparisonScope>, n: int) -> (nat, nat)
    decreases n,
{
    if n <= 0 {
        (0, 0)
    } else {
        let (matched, total) = dimension_tally(dimensions, scope, n - 1);
        if counted(dimensions[n - 1], scope) {
            (matched + if dimensions[n - 1].matched {
                1nat
            } else {
                0nat
            }, total + 1)
        } else {
            (matched, total)
        }
    }
}

/// Matched and total dimensions over the first `n` fixtures.
pub open spec fn comparison_tally(comparisons: Seq<FixtureComparison>, scope: Option<ComparisonScope>, n: int) -> (nat, nat)
    decreases n,
{
    if n <= 0 {
        (0, 0)
    } else {
        let (matched, total) = comparison_tally(comparisons, scope, n - 1);
        let dims = comparisons[n - 1].dimensions@;
        let (m, t) = dimension_tally(dims, scope, dims.len() as int);
        (matched + m, total + t)
    }
}

/// How many dimensions there are in all.
pub open spec fn dimension_count(comparisons: Seq<FixtureComparison>, n: int) -> nat
    decreases n,
{
    if n <= 0 {
        0
    } else {
        dimension_count(comparisons, n - 1) + comparisons[n - 1].dimensions@.len()
    }
}

/// A tally counts at most the dimensions it looks at, and matches at most
/// those it counts.
proof fn lemma_dimension_tally_bounded(dimensions: Seq<DimensionComparison>, scope: Option<ComparisonScope>, n: int)
    requires
        0 <= n <= dimensions.len(),
    ensures
        dimension_tally(dimensions, scope, n).0 <= dimension_tally(dimensions, scope, n).1 <= n,
    decreases n,
{
    if n > 0 {
        lemma_dimension_tally_bounded(dimensions, scope, n - 1);
    }
}

/// Over any fixtures and scope, the matched dimensions never outnumber the
/// counted ones, which never outnumber all dimensions.
pub proof fn lemma_tally_bounded(comparisons: Seq<FixtureComparison>, scope: Option<ComparisonScope>)
    ensures
        comparison_tally(comparisons, scope, comparisons.len() as int).0 <= comparison_tally(
            comparisons,
            scope,
            comparisons.len() as int,
        ).1 <= dimension_count(comparisons, comparisons.len() as int),
{
    lemma_comparison_tally_bounded(comparisons, scope, comparisons.len() as int);
}

proof fn lemma_comparison_tally_bounded(comparisons: Seq<FixtureComparison>, scope: Option<ComparisonScope>, n: int)
    requires
        0 <= n <= comparisons.len(),
    ensures
        comparison_tally(comparisons, scope, n).0 <= comparison_tally(comparisons, scope, n).1 <= dimension_count(comparisons, n),
    decreases n,
{
    if n > 0 {
        lemma_comparison_tally_bounded(comparisons, scope, n - 1);
        let dims = comparisons[n - 1].dimensions@;
        lemma_dimension_tally_bounded(dims, scope, dims.len() as int);
    }
}

proof fn lemma_dimension_count_monotone(comparisons: Seq<FixtureComparison>, i: int, n: int)
    requires
        0 <= i <= n <= comparisons.len(),
    ensures
        dimension_count(comparisons, i) <= dimension_count(comparisons, n),
    decreases n - i,
{
    if i < n {
        lemma_dimension_count_monotone(comparisons, i, n - 1);
    }
}

/// How many dimensions of `scope` (of every scope when `None`) matched, and
/// how many there are.
pub fn tally(comparisons: &[FixtureComparison], scope: Option<ComparisonScope>) -> (result: (usize, usize))
    requires
        dimension_count(comparisons@, comparisons@.len() as int) <= usize::MAX,
    ensures
        result.0 as nat == comparison_tally(comparisons@, scope, comparisons@.len() as int).0,
        result.1 as nat == comparison_tally(comparisons@, scope, comparisons@.len() as int).1,
{
    let mut matched: usize = 0;
    let mut total: usize = 0;
    let mut i: usize = 0;
    while i < comparisons.len()
        invariant
            i <= comparisons@.len(),
            dimension_count(comparisons@, comparisons@.len() as int) <= usize::MAX,
            matched as nat == comparison_tally(comparisons@, scope, i as int).0,
            total as nat == comparison_tally(comparisons@, scope, i as int).1,
            matched <= total,
        decreases comparisons@.len() - i,
    {
        let dimensions = &comparisons[i].dimensions;
        assert(i < comparisons@.len());
        let ghost before = (matched as nat, total as nat);
        proof {
            lemma_comparison_tally_bounded(comparisons@, scope, i + 1);
            lemma_dimension_count_monotone(comparisons@, i + 1, comparisons@.len() as int);
        }
        let mut j: usize = 0;
        while j < dimensions.len()
            invariant
                j <= dimensions@.len(),
                dimensions@ == comparisons@[i as int].dimensions@,
                matched as nat == before.0 + dimension_tally(dimensions@, scope, j as int).0,
                total as nat == before.1 + dimension_tally(dimensions@, scope, j as int).1,
                before.1 + dimension_tally(dimensions@, scope, dimensions@.len() as int).1 <= usize::MAX,
                matched <= total,
            decreases dimensions@.len() - j,
        {
            proof {
                lemma_dimension_tally_monotone(dimensions@, scope, j + 1, dimensions@.len() as int);
                lemma_dimension_tally_bounded(dimensions@, scope, j + 1);
            }
            let counts = match scope {
                Some(s) => dimensions[j].scope == s,
                None => true,
            };
            if counts {
                total += 1;
                if dimensions[j].matched {
                    matched += 1;
                }
            }
            j += 1;
        }
        i += 1;
    }
    (matched, total)
}

/// Tallies only grow as more dimensions are looked at.
proof fn lemma_dimension_tally_monotone(dimensions: Seq<DimensionComparison>, scope: Option<ComparisonScope>, i: int, n: int)
    requires
        0 <= i <= n <= dimensions.len(),
    ensures
        dimension_tally(dimensions, scope, i).0 <= dimension_tally(dimensions, scope, n).0,
        dimension_tally(dimensions, scope, i).1 <= dimension_tally(dimensions, scope, n).1,
    decreases n - i,
{
    if i < n {
        lemma_dimension_tally_monotone(dimensions, scope, i, n - 1);
    }
}

} // verus!
