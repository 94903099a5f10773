//! Policy defaults of a documentation site (`.docfresh.toml`).
use vstd::prelude::*;
use crate::text::{contains_string, owned, strs};

verus! {

/// The whole configuration.
pub struct Config {
    pub source: SourceConfig,
    pub ci: CiConfig,
}

/// Which source files are scanned and which are left out.
pub struct SourceConfig {
    /// Additional scan patterns beyond the language preset defaults.
    pub scan: Vec<String>,
    /// Glob patterns for source files to exclude from coverage and suggest.
    pub exclude: Vec<String>,
}

/// Thresholds that the CI command enforces.
pub struct CiConfig {
    /// Maximum number of stale pages before audit fails. 0 = any stale page fails.
    pub max_stale: usize,
    /// Minimum documentation coverage percentage. 0 = disabled.
    pub min_coverage: usize,
    /// Fail if any source file is unmapped (not in a page's sources and not excluded).
    pub fail_on_unmapped: bool,
    /// Output format for the CI report: "text", "markdown", "json".
    pub format: String,
}

impl Default for CiConfig {
    fn default() -> (r: Self)
        ensures
            r.max_stale == 0,
            r.min_coverage == 0,
            !r.fail_on_unmapped,
            r.format@ == "markdown"@,
    {
        CiConfig { max_stale: 0, min_coverage: 0, fail_on_unmapped: false, format: owned("markdown") }
    }
}

impl Default for SourceConfig {
    fn default() -> (r: Self)
        ensures
            r.scan@.len() == 0,
            r.exclude@.len() == 0,
    {
        SourceConfig { scan: Vec::new(), exclude: Vec::new() }
    }
}

impl Default for Config {
    fn default() -> (r: Self)
        ensures
            r.source.scan@.len() == 0,
            r.source.exclude@.len() == 0,
            r.ci.max_stale == 0,
            r.ci.min_coverage == 0,
            !r.ci.fail_on_unmapped,
            r.ci.format@ == "markdown"@,
    {
        Config { source: SourceConfig::default(), ci: CiConfig::default() }
    }
}

/// The characters of each string slice.
pub open spec fn str_views(v: Seq<&str>) -> Seq<Seq<char>> {
    v.map_values(|s: &str| s@)
}

/// `base` followed by each string of `extra` that neither `base` nor an
/// earlier string of `extra` already holds.
pub open spec fn merge_unique(base: Seq<Seq<char>>, extra: Seq<Seq<char>>) -> Seq<Seq<char>>
    decreases extra.len(),
{
    if extra.len() == 0 {
        base
    } else {
        let prev = merge_unique(base, extra.drop_last());
        if prev.contains(extra.last()) {
            prev
        } else {
            prev.push(extra.last())
        }
    }
}

impl Config {
    /// The preset's scan patterns followed by the configured extra ones.
    pub fn scan_patterns<'a>(&'a self, defaults: &[&'a str]) -> (r: Vec<&'a str>)
        ensures
            str_views(r@) == str_views(defaults@) + strs(self.source.scan@),
    {
        let mut patterns: Vec<&'a str> = Vec::new();
        let mut i: usize = 0;
        while i < defaults.len()
            invariant
                i <= defaults@.len(),
                str_views(patterns@) == str_views(defaults@.take(i as int)),
            decreases defaults@.len() - i,
        {
            let ghost before = patterns@;
            patterns.push(defaults[i]);
            assert(str_views(patterns@) == str_views(before).push(defaults@[i as int]@));
            assert(defaults@.take(i + 1) == defaults@.take(i as int).push(defaults@[i as int]));
            assert(str_views(defaults@.take(i + 1)) == str_views(defaults@.take(i as int)).push(
                defaults@[i as int]@,
            ));
            i = i + 1;
        }
        assert(defaults@.take(defaults@.len() as int) == defaults@);
        let ghost first = str_views(patterns@);
        let mut j: usize = 0;
        while j < self.source.scan.len()
            invariant
                j <= self.source.scan@.len(),
                str_views(patterns@) == first + strs(self.source.scan@).take(j as int),
            decreases self.source.scan@.len() - j,
        {
            let ghost before = patterns@;
            patterns.push(self.source.scan[j].as_str());
            assert(str_views(patterns@) == str_views(before).push(self.source.scan@[j as int]@));
            assert(strs(self.source.scan@).take(j + 1) == strs(self.source.scan@).take(
                j as int,
            ).push(self.source.scan@[j as int]@));
            j = j + 1;
        }
        assert(strs(self.source.scan@).take(self.source.scan@.len() as int) == strs(
            self.source.scan@,
        ));
        patterns
    }

    /// The configured exclude patterns followed by the manifest's ones that
    /// are not already among them.
    pub fn exclude_patterns(&self, manifest_excludes: &[String]) -> (r: Vec<String>)
        ensures
            strs(r@) == merge_unique(strs(self.source.exclude@), strs(manifest_excludes@)),
    {
        let mut patterns: Vec<String> = Vec::new();
        let mut i: usize = 0;
        while i < self.source.exclude.len()
            invariant
                i <= self.source.exclude@.len(),
                strs(patterns@) == strs(self.source.exclude@).take(i as int),
            decreases self.source.exclude@.len() - i,
        {
            let ghost before = patterns@;
            patterns.push(self.source.exclude[i].clone());
            assert(strs(patterns@) == strs(before).push(self.source.exclude@[i as int]@));
            assert(strs(self.source.exclude@).take(i + 1) == strs(self.source.exclude@).take(
                i as int,
            ).push(self.source.exclude@[i as int]@));
            i = i + 1;
        }
        assert(strs(self.source.exclude@).take(self.source.exclude@.len() as int) == strs(
            self.source.exclude@,
        ));
        let ghost base = strs(self.source.exclude@);
        let ghost extra = strs(manifest_excludes@);
        let mut j: usize = 0;
        while j < manifest_excludes.len()
            invariant
                j <= manifest_excludes@.len(),
                extra == strs(manifest_excludes@),
                strs(patterns@) == merge_unique(base, extra.take(j as int)),
            decreases manifest_excludes@.len() - j,
        {
            assert(extra.take(j + 1).drop_last() == extra.take(j as int));
            let p = &manifest_excludes[j];
            if !contains_string(&patterns, p.as_str()) {
                let ghost before = patterns@;
                patterns.push(p.clone());
                assert(strs(patterns@) == strs(before).push(p@));
            }
            j = j + 1;
        }
        assert(extra.take(manifest_excludes@.len() as int) == extra);
        patterns
    }
}

/// Whether no string occurs twice.
pub open spec fn no_duplicates(s: Seq<Seq<char>>) -> bool {
    forall|i: int, j: int| 0 <= i < j < s.len() ==> s[i] != s[j]
}

/// The merged exclude list holds exactly the patterns of both lists, and it
/// holds none twice when the configured list holds none twice.
pub proof fn lemma_merge_unique(base: Seq<Seq<char>>, extra: Seq<Seq<char>>)
    ensures
        forall|x: Seq<char>|
            merge_unique(base, extra).contains(x) <==> (base.contains(x) || extra.contains(x)),
        no_duplicates(base) ==> no_duplicates(merge_unique(base, extra)),
        merge_unique(base, extra).len() >= base.len(),
        merge_unique(base, extra).take(base.len() as int) == base,
    decreases extra.len(),
{
    if extra.len() > 0 {
        let prev = merge_unique(base, extra.drop_last());
        lemma_merge_unique(base, extra.drop_last());
        assert forall|x: Seq<char>|
            merge_unique(base, extra).contains(x) <==> (base.contains(x) || extra.contains(
                x,
            )) by {
            if extra.contains(x) {
                let k = choose|k: int| 0 <= k < extra.len() && extra[k] == x;
                if k < extra.len() - 1 {
                    assert(extra.drop_last()[k] == x);
                }
            }
            if extra.drop_last().contains(x) {
                let k = choose|k: int| 0 <= k < extra.drop_last().len() && extra.drop_last()[k] == x;
                assert(extra[k] == x);
            }
            if !prev.contains(extra.last()) {
                if prev.push(extra.last()).contains(x) {
                    let k = choose|k: int| 0 <= k < prev.push(extra.last()).len() && prev.push(
                        extra.last(),
                    )[k] == x;
                    if k < prev.len() {
                        assert(prev[k] == x);
                    }
                }
                if prev.contains(x) {
                    let k = choose|k: int| 0 <= k < prev.len() && prev[k] == x;
                    assert(prev.push(extra.last())[k] == x);
                }
                assert(prev.push(extra.last())[prev.len() as int] == extra.last());
            }
        }
        if !prev.contains(extra.last()) {
            assert(prev.push(extra.last()).take(base.len() as int) =~= prev.take(base.len() as int));
        }
    } else {
        assert(base.take(base.len() as int) == base);
    }
}

} // verus!
