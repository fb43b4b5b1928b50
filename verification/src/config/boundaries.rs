//! Architecture boundaries: zones of files, and which zone may import which.
use crate::config::error::{ConfigError, ConfigErrorView};
use crate::config::globs::{
    compile_glob, glob_error, glob_fits, glob_is_small, glob_pattern, glob_patterns, globs_are_small,
    globs_fit,
};
use crate::path::copy_texts;
use crate::order::{sort_texts, sorted_texts, sorting_sorts};
use crate::text::{ends_with, has_suffix, same, str_views, texts_of, views};
use globset::GlobMatcher;
use vstd::prelude::*;

verus! {

/// Curated layouts. Each stands for a fixed set of zones and rules, to which a
/// project's own are appended: they extend a layout and do not override it.
#[derive(Debug, Clone, Copy, PartialEq, Eq, Structural)]
pub enum BoundaryPreset {
    /// Features under `src/features/<name>` that do not import each other, with
    /// a shared library beside them.
    Bulletproof,
    /// Presentation over business over data: a lower tier does not import a
    /// higher one.
    Layered,
    /// Ports and adapters: the domain imports neither the application nor the
    /// adapters.
    Hexagonal,
    /// Entities under features under widgets under pages: a layer imports only
    /// from layers below it.
    FeatureSliced,
}

/// The names of the layouts as a configuration writes them.
pub const KNOWN_BOUNDARY_PRESETS: [&'static str; 4] = [
    "bulletproof",
    "layered",
    "hexagonal",
    "feature-sliced",
];

/// A zone as it is written down.
#[derive(Debug, Default)]
pub struct ZoneFile {
    pub name: String,
    pub patterns: Vec<String>,
    /// Directories whose immediate child directories each become a zone, if
    /// they hold a Python file.
    pub auto_discover: Vec<String>,
}

/// A rule as it is written down.
#[derive(Debug, Default)]
pub struct RuleFile {
    pub from: String,
    pub allow: Vec<String>,
    pub deny: Vec<String>,
}

/// The boundaries as they are written down.
#[derive(Debug, Default)]
pub struct BoundariesFile {
    pub preset: Option<BoundaryPreset>,
    pub zones: Vec<ZoneFile>,
    pub rules: Vec<RuleFile>,
}

/// A directory in a listed directory, with the names of the files in it.
#[derive(Debug)]
pub struct ChildDir {
    pub name: String,
    pub files: Vec<String>,
}

/// The directories that were found in a directory.
#[derive(Debug)]
pub struct DirListing {
    pub dir: String,
    pub children: Vec<ChildDir>,
}

/// A zone. A file belongs to it when its path matches one of the patterns.
#[derive(Debug)]
pub struct ResolvedZone {
    pub name: String,
    pub patterns: Vec<GlobMatcher>,
}

/// A rule for the zones whose name matches `from`. Either it allows, and then
/// every other import is an offence, or it denies.
#[derive(Debug)]
pub struct ResolvedRule {
    pub from: GlobMatcher,
    pub allow: Vec<GlobMatcher>,
    pub deny: Vec<GlobMatcher>,
}

#[derive(Debug, Default)]
pub struct BoundaryConfig {
    pub zones: Vec<ResolvedZone>,
    pub rules: Vec<ResolvedRule>,
}

/// A zone as it is written down.
#[verifier::ext_equal]
pub struct ZoneEntry {
    pub name: Seq<char>,
    pub patterns: Seq<Seq<char>>,
    pub auto_discover: Seq<Seq<char>>,
}

/// A zone with the patterns of its files.
#[verifier::ext_equal]
pub struct Zone {
    pub name: Seq<char>,
    pub patterns: Seq<Seq<char>>,
}

#[verifier::ext_equal]
pub struct BoundaryRule {
    pub from: Seq<char>,
    pub allow: Seq<Seq<char>>,
    pub deny: Seq<Seq<char>>,
}

impl View for ZoneFile {
    type V = ZoneEntry;

    open spec fn view(&self) -> ZoneEntry {
        ZoneEntry {
            name: self.name@,
            patterns: views(self.patterns@),
            auto_discover: views(self.auto_discover@),
        }
    }
}

impl View for RuleFile {
    type V = BoundaryRule;

    open spec fn view(&self) -> BoundaryRule {
        BoundaryRule { from: self.from@, allow: views(self.allow@), deny: views(self.deny@) }
    }
}

impl View for ResolvedZone {
    type V = Zone;

    open spec fn view(&self) -> Zone {
        Zone { name: self.name@, patterns: glob_patterns(self.patterns@) }
    }
}

impl View for ResolvedRule {
    type V = BoundaryRule;

    open spec fn view(&self) -> BoundaryRule {
        BoundaryRule {
            from: glob_pattern(self.from),
            allow: glob_patterns(self.allow@),
            deny: glob_patterns(self.deny@),
        }
    }
}

pub open spec fn zone_entries(v: Seq<ZoneFile>) -> Seq<ZoneEntry> {
    v.map_values(|z: ZoneFile| z@)
}

pub open spec fn rule_entries(v: Seq<RuleFile>) -> Seq<BoundaryRule> {
    v.map_values(|r: RuleFile| r@)
}

pub open spec fn zones_view(v: Seq<ResolvedZone>) -> Seq<Zone> {
    v.map_values(|z: ResolvedZone| z@)
}

pub open spec fn rules_view(v: Seq<ResolvedRule>) -> Seq<BoundaryRule> {
    v.map_values(|r: ResolvedRule| r@)
}

/// A zone of a layout.
pub open spec fn canned_zone(
    name: Seq<char>,
    patterns: Seq<Seq<char>>,
    auto_discover: Seq<Seq<char>>,
) -> ZoneEntry {
    ZoneEntry { name, patterns, auto_discover }
}

pub open spec fn denies(from: Seq<char>, deny: Seq<Seq<char>>) -> BoundaryRule {
    BoundaryRule { from, allow: Seq::empty(), deny }
}

pub open spec fn allows(from: Seq<char>, allow: Seq<Seq<char>>) -> BoundaryRule {
    BoundaryRule { from, allow, deny: Seq::empty() }
}

/// The zones of a layout.
pub open spec fn preset_zones(preset: BoundaryPreset) -> Seq<ZoneEntry> {
    match preset {
        BoundaryPreset::Bulletproof => seq![
            canned_zone("features"@, seq![], seq!["src/features"@]),
            canned_zone("shared"@, seq!["src/shared/**"@, "src/lib/**"@], seq![]),
        ],
        BoundaryPreset::Layered => seq![
            canned_zone("presentation"@, seq!["src/presentation/**"@], seq![]),
            canned_zone("business"@, seq!["src/business/**"@], seq![]),
            canned_zone("data"@, seq!["src/data/**"@], seq![]),
        ],
        BoundaryPreset::Hexagonal => seq![
            canned_zone("domain"@, seq!["src/domain/**"@], seq![]),
            canned_zone("application"@, seq!["src/application/**"@], seq![]),
            canned_zone(
                "adapters"@,
                seq!["src/adapters/**"@, "src/infrastructure/**"@],
                seq![],
            ),
        ],
        BoundaryPreset::FeatureSliced => seq![
            canned_zone("entities"@, seq![], seq!["src/entities"@]),
            canned_zone("features"@, seq![], seq!["src/features"@]),
            canned_zone("widgets"@, seq![], seq!["src/widgets"@]),
            canned_zone("pages"@, seq![], seq!["src/pages"@]),
            canned_zone("shared"@, seq!["src/shared/**"@], seq![]),
        ],
    }
}

/// The rules of a layout.
pub open spec fn preset_rules(preset: BoundaryPreset) -> Seq<BoundaryRule> {
    match preset {
        BoundaryPreset::Bulletproof => seq![denies("features/*"@, seq!["features/*"@])],
        BoundaryPreset::Layered => seq![
            denies("data"@, seq!["business"@, "presentation"@]),
            denies("business"@, seq!["presentation"@]),
        ],
        BoundaryPreset::Hexagonal => seq![
            denies("domain"@, seq!["application"@, "adapters"@]),
            denies("application"@, seq!["adapters"@]),
        ],
        BoundaryPreset::FeatureSliced => seq![
            allows("entities/*"@, seq!["shared"@]),
            allows("features/*"@, seq!["entities/*"@, "shared"@]),
            allows("widgets/*"@, seq!["features/*"@, "entities/*"@, "shared"@]),
            allows("pages/*"@, seq!["widgets/*"@, "features/*"@, "entities/*"@, "shared"@]),
        ],
    }
}

fn zone(name: &str, patterns: &[&str], auto_discover: &[&str]) -> (r: ZoneFile)
    ensures
        r@ == canned_zone(name@, str_views(patterns@), str_views(auto_discover@)),
{
    ZoneFile { name: name.to_owned(), patterns: texts_of(patterns), auto_discover: texts_of(auto_discover) }
}

fn deny(from: &str, zones: &[&str]) -> (r: RuleFile)
    ensures
        r@ == denies(from@, str_views(zones@)),
{
    let r = RuleFile { from: from.to_owned(), allow: Vec::new(), deny: texts_of(zones) };
    assert(r@.allow =~= Seq::empty());
    r
}

fn allow(from: &str, zones: &[&str]) -> (r: RuleFile)
    ensures
        r@ == allows(from@, str_views(zones@)),
{
    let r = RuleFile { from: from.to_owned(), allow: texts_of(zones), deny: Vec::new() };
    assert(r@.deny =~= Seq::empty());
    r
}

/// The zones and rules that a layout stands for.
pub fn preset_layout(preset: BoundaryPreset) -> (r: BoundariesFile)
    ensures
        r.preset is None,
        zone_entries(r.zones@) == preset_zones(preset),
        rule_entries(r.rules@) == preset_rules(preset),
{
    let r = match preset {
        BoundaryPreset::Bulletproof => BoundariesFile {
            preset: None,
            zones: vec![
                zone("features", &[], &["src/features"]),
                zone("shared", &["src/shared/**", "src/lib/**"], &[]),
            ],
            // A feature that imports another one is the violation that this
            // layout is about. No rule denies the shared zone.
            rules: vec![deny("features/*", &["features/*"])],
        },
        BoundaryPreset::Layered => BoundariesFile {
            preset: None,
            zones: vec![
                zone("presentation", &["src/presentation/**"], &[]),
                zone("business", &["src/business/**"], &[]),
                zone("data", &["src/data/**"], &[]),
            ],
            rules: vec![
                deny("data", &["business", "presentation"]),
                deny("business", &["presentation"]),
            ],
        },
        BoundaryPreset::Hexagonal => BoundariesFile {
            preset: None,
            zones: vec![
                zone("domain", &["src/domain/**"], &[]),
                zone("application", &["src/application/**"], &[]),
                zone("adapters", &["src/adapters/**", "src/infrastructure/**"], &[]),
            ],
            rules: vec![
                deny("domain", &["application", "adapters"]),
                deny("application", &["adapters"]),
            ],
        },
        BoundaryPreset::FeatureSliced => BoundariesFile {
            preset: None,
            zones: vec![
                zone("entities", &[], &["src/entities"]),
                zone("features", &[], &["src/features"]),
                zone("widgets", &[], &["src/widgets"]),
                zone("pages", &[], &["src/pages"]),
                zone("shared", &["src/shared/**"], &[]),
            ],
            rules: vec![
                allow("entities/*", &["shared"]),
                allow("features/*", &["entities/*", "shared"]),
                allow("widgets/*", &["features/*", "entities/*", "shared"]),
                allow("pages/*", &["widgets/*", "features/*", "entities/*", "shared"]),
            ],
        },
    };
    assert(zone_entries(r.zones@) =~~= preset_zones(preset));
    assert(rule_entries(r.rules@) =~~= preset_rules(preset));
    r
}

/// The names of the directories in a list that hold a Python file.
pub open spec fn python_dirs(children: Seq<ChildDir>) -> Seq<Seq<char>>
    decreases children.len(),
{
    if children.len() == 0 {
        Seq::empty()
    } else {
        let before = python_dirs(children.drop_last());
        if holds_python(children.last()) {
            before.push(children.last().name@)
        } else {
            before
        }
    }
}

/// Whether a name is that of a file whose extension is `py`.
pub open spec fn is_python_name(name: Seq<char>) -> bool {
    has_suffix(name, ".py"@) && name.len() > 3
}

/// Whether a directory holds a Python file.
pub open spec fn holds_python(dir: ChildDir) -> bool {
    exists|i: int| 0 <= i < dir.files@.len() && is_python_name(#[trigger] views(dir.files@)[i])
}

/// What was found in a directory, in order; nothing if it was not listed.
pub open spec fn children_of(listings: Seq<DirListing>, dir: Seq<char>) -> Seq<Seq<char>>
    decreases listings.len(),
{
    if listings.len() == 0 {
        Seq::empty()
    } else if listings[0].dir@ == dir {
        sorted_texts(python_dirs(listings[0].children@))
    } else {
        children_of(listings.skip(1), dir)
    }
}

/// The pattern for the files below a child of a directory.
pub open spec fn child_pattern(dir: Seq<char>, child: Seq<char>) -> Seq<char> {
    dir + "/"@ + child + "/**"@
}

/// The patterns for the files below each child of a directory.
pub open spec fn child_patterns(dir: Seq<char>, children: Seq<Seq<char>>) -> Seq<Seq<char>> {
    children.map_values(|c: Seq<char>| child_pattern(dir, c))
}

/// The zones for the children of a directory.
pub open spec fn child_zones(
    name: Seq<char>,
    dir: Seq<char>,
    children: Seq<Seq<char>>,
) -> Seq<Zone> {
    children.map_values(
        |c: Seq<char>| Zone { name: name + "/"@ + c, patterns: seq![child_pattern(dir, c)] },
    )
}

/// The patterns for what is found in a list of directories.
pub open spec fn found_patterns(
    dirs: Seq<Seq<char>>,
    listings: Seq<DirListing>,
) -> Seq<Seq<char>>
    decreases dirs.len(),
{
    if dirs.len() == 0 {
        Seq::empty()
    } else {
        found_patterns(dirs.drop_last(), listings) + child_patterns(
            dirs.last(),
            children_of(listings, dirs.last()),
        )
    }
}

/// The zones for what is found in a list of directories.
pub open spec fn found_zones(
    name: Seq<char>,
    dirs: Seq<Seq<char>>,
    listings: Seq<DirListing>,
) -> Seq<Zone>
    decreases dirs.len(),
{
    if dirs.len() == 0 {
        Seq::empty()
    } else {
        found_zones(name, dirs.drop_last(), listings) + child_zones(
            name,
            dirs.last(),
            children_of(listings, dirs.last()),
        )
    }
}

/// The zone that an entry spells out, if it has patterns.
pub open spec fn own_zone(entry: ZoneEntry) -> Seq<Zone> {
    if entry.patterns.len() == 0 {
        Seq::empty()
    } else {
        seq![Zone { name: entry.name, patterns: entry.patterns }]
    }
}

/// The zones that a list of entries stands for: of each entry the one that it
/// spells out, then those for what is found in its directories.
pub open spec fn zones_of(entries: Seq<ZoneEntry>, listings: Seq<DirListing>) -> Seq<Zone>
    decreases entries.len(),
{
    if entries.len() == 0 {
        Seq::empty()
    } else {
        zones_of(entries.drop_last(), listings) + own_zone(entries.last()) + found_zones(
            entries.last().name,
            entries.last().auto_discover,
            listings,
        )
    }
}

/// What is wrong with the first bad pattern of a list.
pub open spec fn globs_error(patterns: Seq<Seq<char>>, context: Seq<char>) -> Option<
    ConfigErrorView,
>
    decreases patterns.len(),
{
    if patterns.len() == 0 {
        None
    } else {
        match globs_error(patterns.drop_last(), context) {
            Some(e) => Some(e),
            None => match glob_error(patterns.last()) {
                Some(message) => Some(
                    ConfigErrorView::InvalidBoundaryGlob {
                        context,
                        pattern: patterns.last(),
                        message,
                    },
                ),
                None => None,
            },
        }
    }
}

/// The first of two errors.
pub open spec fn first_of(
    a: Option<ConfigErrorView>,
    b: Option<ConfigErrorView>,
) -> Option<ConfigErrorView> {
    if a is Some {
        a
    } else {
        b
    }
}

/// What is wrong with a zone.
pub open spec fn zone_error(entry: ZoneEntry, listings: Seq<DirListing>) -> Option<
    ConfigErrorView,
> {
    first_of(
        globs_error(entry.patterns, "patterns"@),
        globs_error(found_patterns(entry.auto_discover, listings), "auto_discover"@),
    )
}

/// What is wrong with the first bad zone of a list.
pub open spec fn zones_error(entries: Seq<ZoneEntry>, listings: Seq<DirListing>) -> Option<
    ConfigErrorView,
>
    decreases entries.len(),
{
    if entries.len() == 0 {
        None
    } else {
        first_of(
            zones_error(entries.drop_last(), listings),
            zone_error(entries.last(), listings),
        )
    }
}

/// What is wrong with a rule: that it both allows and denies, or else its first
/// bad pattern.
pub open spec fn rule_error(rule: BoundaryRule) -> Option<ConfigErrorView> {
    if rule.allow.len() > 0 && rule.deny.len() > 0 {
        Some(ConfigErrorView::ConflictingBoundaryRule { from: rule.from })
    } else {
        first_of(
            globs_error(seq![rule.from], "rules.from"@),
            first_of(
                globs_error(rule.allow, "rules.allow"@),
                globs_error(rule.deny, "rules.deny"@),
            ),
        )
    }
}

/// What is wrong with the first bad rule of a list.
pub open spec fn rules_error(rules: Seq<BoundaryRule>) -> Option<ConfigErrorView>
    decreases rules.len(),
{
    if rules.len() == 0 {
        None
    } else {
        first_of(rules_error(rules.drop_last()), rule_error(rules.last()))
    }
}

/// The zones of a layout, if one is named, and then the project's own.
pub open spec fn all_zone_entries(file: BoundariesFile) -> Seq<ZoneEntry> {
    match file.preset {
        Some(preset) => preset_zones(preset) + zone_entries(file.zones@),
        None => zone_entries(file.zones@),
    }
}

/// The rules of a layout, if one is named, and then the project's own.
pub open spec fn all_rule_entries(file: BoundariesFile) -> Seq<BoundaryRule> {
    match file.preset {
        Some(preset) => preset_rules(preset) + rule_entries(file.rules@),
        None => rule_entries(file.rules@),
    }
}

/// What is wrong with the boundaries of a project.
pub open spec fn boundaries_error(file: BoundariesFile, listings: Seq<DirListing>) -> Option<
    ConfigErrorView,
> {
    first_of(
        zones_error(all_zone_entries(file), listings),
        rules_error(all_rule_entries(file)),
    )
}

pub open spec fn zone_fits(entry: ZoneEntry, listings: Seq<DirListing>) -> bool {
    globs_fit(entry.patterns) && globs_fit(found_patterns(entry.auto_discover, listings))
}

pub open spec fn rule_fits(rule: BoundaryRule) -> bool {
    glob_fits(rule.from) && globs_fit(rule.allow) && globs_fit(rule.deny)
}

/// Whether all patterns of a project's boundaries are small enough.
pub open spec fn boundaries_fit(file: BoundariesFile, listings: Seq<DirListing>) -> bool {
    &&& forall|i: int|
        0 <= i < all_zone_entries(file).len() ==> zone_fits(
            #[trigger] all_zone_entries(file)[i],
            listings,
        )
    &&& forall|i: int|
        0 <= i < all_rule_entries(file).len() ==> rule_fits(#[trigger] all_rule_entries(file)[i])
}

fn python_name(name: &str) -> (r: bool)
    ensures
        r == is_python_name(name@),
{
    proof {
        reveal_strlit(".py");
    }
    let r = ends_with(name, ".py") && !same(name, ".py");
    proof {
        if has_suffix(name@, ".py"@) && name@.len() == 3 {
            assert(name@.skip(0) =~= name@);
        }
    }
    r
}

fn dir_contains_py(dir: &ChildDir) -> (r: bool)
    ensures
        r == holds_python(*dir),
{
    let mut i: usize = 0;
    while i < dir.files.len()
        invariant
            i <= dir.files@.len(),
            forall|j: int| 0 <= j < i ==> !is_python_name(#[trigger] views(dir.files@)[j]),
        decreases dir.files@.len() - i,
    {
        if python_name(dir.files[i].as_str()) {
            assert(is_python_name(views(dir.files@)[i as int]));
            return true;
        }
        i += 1;
    }
    false
}

fn found_children(listings: &Vec<DirListing>, dir: &str) -> (r: Vec<String>)
    ensures
        views(r@) == children_of(listings@, dir@),
{
    let mut i: usize = 0;
    assert(listings@.skip(0) =~= listings@);
    while i < listings.len()
        invariant
            i <= listings@.len(),
            children_of(listings@, dir@) == children_of(listings@.skip(i as int), dir@),
        decreases listings@.len() - i,
    {
        let listing = &listings[i];
        assert(listings@.skip(i as int)[0] == *listing);
        assert(listings@.skip(i as int).skip(1) =~= listings@.skip(i + 1));
        if same(listing.dir.as_str(), dir) {
            return sort_texts(&python_children(&listing.children));
        }
        i += 1;
    }
    let r: Vec<String> = Vec::new();
    assert(views(r@) =~= Seq::empty());
    r
}

fn python_children(children: &Vec<ChildDir>) -> (r: Vec<String>)
    ensures
        views(r@) == python_dirs(children@),
{
    let mut r: Vec<String> = Vec::new();
    let mut i: usize = 0;
    assert(views(r@) =~= python_dirs(children@.take(0)));
    while i < children.len()
        invariant
            i <= children@.len(),
            views(r@) == python_dirs(children@.take(i as int)),
        decreases children@.len() - i,
    {
        assert(children@.take(i + 1).drop_last() =~= children@.take(i as int));
        let ghost was = views(r@);
        if dir_contains_py(&children[i]) {
            r.push(children[i].name.clone());
            assert(views(r@) =~= was.push(children@[i as int].name@));
        }
        i += 1;
    }
    assert(children@.take(i as int) =~= children@);
    r
}

fn bad_glob(context: &str, pattern: &str, message: String) -> (r: ConfigError)
    ensures
        r@ == (ConfigErrorView::InvalidBoundaryGlob {
            context: context@,
            pattern: pattern@,
            message: message@,
        }),
{
    ConfigError::InvalidBoundaryGlob {
        context: context.to_owned(),
        pattern: pattern.to_owned(),
        message,
    }
}

/// The error of a list is that of any start of it that has one.
proof fn lemma_globs_error_take(patterns: Seq<Seq<char>>, context: Seq<char>, n: int)
    requires
        0 <= n <= patterns.len(),
        globs_error(patterns.take(n), context) is Some,
    ensures
        globs_error(patterns, context) == globs_error(patterns.take(n), context),
    decreases patterns.len(),
{
    if n < patterns.len() {
        assert(patterns.drop_last().take(n) =~= patterns.take(n));
        lemma_globs_error_take(patterns.drop_last(), context, n);
    } else {
        assert(patterns.take(n) =~= patterns);
    }
}

fn compile_globs(patterns: &Vec<String>, context: &str) -> (r: Result<
    Vec<GlobMatcher>,
    ConfigError,
>)
    requires
        globs_fit(views(patterns@)),
    ensures
        match r {
            Ok(v) => globs_error(views(patterns@), context@) is None && glob_patterns(v@)
                == views(patterns@),
            Err(e) => globs_error(views(patterns@), context@) == Some(e@),
        },
{
    let ghost all = views(patterns@);
    let mut v: Vec<GlobMatcher> = Vec::new();
    let mut i: usize = 0;
    assert(glob_patterns(v@) =~= all.take(0));
    while i < patterns.len()
        invariant
            i <= patterns@.len(),
            all == views(patterns@),
            globs_fit(all),
            globs_error(all.take(i as int), context@) is None,
            glob_patterns(v@) == all.take(i as int),
        decreases patterns@.len() - i,
    {
        let pattern = patterns[i].as_str();
        proof {
            assert(pattern@ == all[i as int]);
            assert(all.take(i + 1).drop_last() =~= all.take(i as int));
            assert(all.take(i + 1).last() == pattern@);
        }
        match compile_glob(pattern) {
            Ok(m) => {
                let ghost was = glob_patterns(v@);
                v.push(m);
                assert(glob_patterns(v@) =~= was.push(pattern@));
                assert(all.take(i + 1) =~= all.take(i as int).push(pattern@));
            },
            Err(message) => {
                proof {
                    lemma_globs_error_take(all, context@, i + 1);
                }
                return Err(bad_glob(context, pattern, message));
            },
        }
        i += 1;
    }
    assert(all.take(i as int) =~= all);
    Ok(v)
}

/// The error of two lists is that of the first, or else that of the second.
proof fn lemma_globs_error_concat(a: Seq<Seq<char>>, b: Seq<Seq<char>>, context: Seq<char>)
    ensures
        globs_error(a + b, context) == first_of(globs_error(a, context), globs_error(b, context)),
    decreases b.len(),
{
    if b.len() == 0 {
        assert(a + b =~= a);
    } else {
        assert((a + b).drop_last() =~= a + b.drop_last());
        lemma_globs_error_concat(a, b.drop_last(), context);
    }
}

/// What is found in the first directories comes first.
proof fn lemma_found_prefix(
    dirs: Seq<Seq<char>>,
    listings: Seq<DirListing>,
    n: int,
    context: Seq<char>,
)
    requires
        0 <= n <= dirs.len(),
    ensures
        globs_error(found_patterns(dirs.take(n), listings), context) is Some ==> globs_error(
            found_patterns(dirs, listings),
            context,
        ) == globs_error(found_patterns(dirs.take(n), listings), context),
        globs_fit(found_patterns(dirs, listings)) ==> globs_fit(
            found_patterns(dirs.take(n), listings),
        ),
    decreases dirs.len(),
{
    if n == dirs.len() {
        assert(dirs.take(n) =~= dirs);
    } else {
        let before = dirs.drop_last();
        assert(before.take(n) =~= dirs.take(n));
        lemma_found_prefix(before, listings, n, context);
        let a = found_patterns(before, listings);
        let b = child_patterns(dirs.last(), children_of(listings, dirs.last()));
        lemma_globs_error_concat(a, b, context);
        if globs_fit(a + b) {
            assert forall|i: int| 0 <= i < a.len() implies glob_fits(#[trigger] a[i]) by {
                assert((a + b)[i] == a[i]);
            }
        }
    }
}

fn add_children(
    zones: &mut Vec<ResolvedZone>,
    name: &str,
    dir: &str,
    children: &Vec<String>,
) -> (r: Result<(), ConfigError>)
    requires
        globs_fit(child_patterns(dir@, views(children@))),
    ensures
        match r {
            Ok(_) => globs_error(child_patterns(dir@, views(children@)), "auto_discover"@) is None
                && zones_view(final(zones)@) == zones_view(old(zones)@) + child_zones(
                name@,
                dir@,
                views(children@),
            ),
            Err(e) => globs_error(child_patterns(dir@, views(children@)), "auto_discover"@) == Some(
                e@,
            ),
        },
{
    let ghost start = zones_view(zones@);
    let ghost names = views(children@);
    let ghost patterns = child_patterns(dir@, names);
    let ghost added = child_zones(name@, dir@, names);
    let mut i: usize = 0;
    assert(zones_view(zones@) =~= start + added.take(0));
    while i < children.len()
        invariant
            i <= children@.len(),
            names == views(children@),
            patterns == child_patterns(dir@, names),
            added == child_zones(name@, dir@, names),
            globs_fit(patterns),
            globs_error(patterns.take(i as int), "auto_discover"@) is None,
            zones_view(zones@) == start + added.take(i as int),
        decreases children@.len() - i,
    {
        let child = children[i].as_str();
        let mut pattern = dir.to_owned();
        pattern.append("/");
        pattern.append(child);
        pattern.append("/**");
        proof {
            assert(names[i as int] == child@);
            assert(pattern@ == patterns[i as int]);
            assert(patterns.take(i + 1).drop_last() =~= patterns.take(i as int));
        }
        match compile_glob(pattern.as_str()) {
            Ok(m) => {
                let mut full = name.to_owned();
                full.append("/");
                full.append(child);
                let mut own: Vec<GlobMatcher> = Vec::new();
                own.push(m);
                assert(glob_patterns(own@) =~= seq![pattern@]);
                let ghost was = zones_view(zones@);
                zones.push(ResolvedZone { name: full, patterns: own });
                proof {
                    assert(zones_view(zones@) =~= was.push(added[i as int]));
                    assert(start + added.take(i + 1) =~= was.push(added[i as int]));
                }
            },
            Err(message) => {
                proof {
                    lemma_globs_error_take(patterns, "auto_discover"@, i + 1);
                }
                return Err(bad_glob("auto_discover", pattern.as_str(), message));
            },
        }
        i += 1;
    }
    assert(patterns.take(i as int) =~= patterns);
    assert(added.take(i as int) =~= added);
    Ok(())
}

fn add_found(
    zones: &mut Vec<ResolvedZone>,
    name: &str,
    dirs: &Vec<String>,
    listings: &Vec<DirListing>,
) -> (r: Result<(), ConfigError>)
    requires
        globs_fit(found_patterns(views(dirs@), listings@)),
    ensures
        match r {
            Ok(_) => globs_error(found_patterns(views(dirs@), listings@), "auto_discover"@) is None
                && zones_view(final(zones)@) == zones_view(old(zones)@) + found_zones(
                name@,
                views(dirs@),
                listings@,
            ),
            Err(e) => globs_error(found_patterns(views(dirs@), listings@), "auto_discover"@) == Some(
                e@,
            ),
        },
{
    let ghost start = zones_view(zones@);
    let ghost all = views(dirs@);
    let mut i: usize = 0;
    assert(zones_view(zones@) =~= start + found_zones(name@, all.take(0), listings@));
    while i < dirs.len()
        invariant
            i <= dirs@.len(),
            all == views(dirs@),
            globs_fit(found_patterns(all, listings@)),
            globs_error(found_patterns(all.take(i as int), listings@), "auto_discover"@) is None,
            zones_view(zones@) == start + found_zones(name@, all.take(i as int), listings@),
        decreases dirs@.len() - i,
    {
        let dir = dirs[i].as_str();
        let children = found_children(listings, dir);
        let ghost a = found_patterns(all.take(i as int), listings@);
        let ghost b = child_patterns(dir@, views(children@));
        proof {
            assert(all.take(i + 1).drop_last() =~= all.take(i as int));
            assert(all.take(i + 1).last() == dir@);
            assert(found_patterns(all.take(i + 1), listings@) == a + b);
            lemma_found_prefix(all, listings@, i + 1, "auto_discover"@);
            lemma_globs_error_concat(a, b, "auto_discover"@);
            assert forall|j: int| 0 <= j < b.len() implies glob_fits(#[trigger] b[j]) by {
                assert((a + b)[a.len() + j] == b[j]);
            }
        }
        let ghost was = zones_view(zones@);
        if let Err(e) = add_children(zones, name, dir, &children) {
            return Err(e);
        }
        proof {
            let more = child_zones(name@, dir@, views(children@));
            assert(start + (found_zones(name@, all.take(i as int), listings@) + more) =~= was + more);
        }
        i += 1;
    }
    assert(all.take(i as int) =~= all);
    Ok(())
}

fn add_zone(
    zones: &mut Vec<ResolvedZone>,
    entry: &ZoneFile,
    listings: &Vec<DirListing>,
) -> (r: Result<(), ConfigError>)
    requires
        zone_fits(entry@, listings@),
    ensures
        match r {
            Ok(_) => zone_error(entry@, listings@) is None && zones_view(final(zones)@)
                == zones_view(old(zones)@) + own_zone(entry@) + found_zones(
                entry@.name,
                entry@.auto_discover,
                listings@,
            ),
            Err(e) => zone_error(entry@, listings@) == Some(e@),
        },
{
    let ghost start = zones_view(zones@);
    match compile_globs(&entry.patterns, "patterns") {
        Ok(patterns) => {
            assert(glob_patterns(patterns@).len() == patterns@.len());
            if patterns.len() > 0 {
                zones.push(ResolvedZone { name: entry.name.clone(), patterns });
            }
        },
        Err(e) => {
            return Err(e);
        },
    }
    assert(zones_view(zones@) =~= start + own_zone(entry@));
    // Directories without a Python file do not make a zone.
    add_found(zones, entry.name.as_str(), &entry.auto_discover, listings)
}

/// The error of a list of zones is that of any start of it that has one.
proof fn lemma_zones_error_take(entries: Seq<ZoneEntry>, listings: Seq<DirListing>, n: int)
    requires
        0 <= n <= entries.len(),
        zones_error(entries.take(n), listings) is Some,
    ensures
        zones_error(entries, listings) == zones_error(entries.take(n), listings),
    decreases entries.len(),
{
    if n < entries.len() {
        assert(entries.drop_last().take(n) =~= entries.take(n));
        lemma_zones_error_take(entries.drop_last(), listings, n);
    } else {
        assert(entries.take(n) =~= entries);
    }
}

fn resolve_zones(entries: &Vec<ZoneFile>, listings: &Vec<DirListing>) -> (r: Result<
    Vec<ResolvedZone>,
    ConfigError,
>)
    requires
        forall|i: int|
            0 <= i < entries@.len() ==> zone_fits(#[trigger] zone_entries(entries@)[i], listings@),
    ensures
        match r {
            Ok(v) => zones_error(zone_entries(entries@), listings@) is None && zones_view(v@)
                == zones_of(zone_entries(entries@), listings@),
            Err(e) => zones_error(zone_entries(entries@), listings@) == Some(e@),
        },
{
    let ghost all = zone_entries(entries@);
    let mut zones: Vec<ResolvedZone> = Vec::new();
    let mut i: usize = 0;
    assert(zones_view(zones@) =~= zones_of(all.take(0), listings@));
    while i < entries.len()
        invariant
            i <= entries@.len(),
            all == zone_entries(entries@),
            forall|i: int| 0 <= i < entries@.len() ==> zone_fits(#[trigger] all[i], listings@),
            zones_error(all.take(i as int), listings@) is None,
            zones_view(zones@) == zones_of(all.take(i as int), listings@),
        decreases entries@.len() - i,
    {
        proof {
            assert(all[i as int] == entries@[i as int]@);
            assert(all.take(i + 1).drop_last() =~= all.take(i as int));
        }
        if let Err(e) = add_zone(&mut zones, &entries[i], listings) {
            proof {
                lemma_zones_error_take(all, listings@, i + 1);
            }
            return Err(e);
        }
        i += 1;
    }
    assert(all.take(i as int) =~= all);
    Ok(zones)
}

fn resolve_rule(entry: &RuleFile) -> (r: Result<ResolvedRule, ConfigError>)
    requires
        rule_fits(entry@),
    ensures
        match r {
            Ok(rule) => rule_error(entry@) is None && rule@ == entry@,
            Err(e) => rule_error(entry@) == Some(e@),
        },
{
    if entry.allow.len() > 0 && entry.deny.len() > 0 {
        return Err(ConfigError::ConflictingBoundaryRule { from: entry.from.clone() });
    }
    proof {
        let one = seq![entry.from@];
        assert(one.drop_last() =~= Seq::empty());
        reveal_with_fuel(globs_error, 2);
        assert(globs_error(one.drop_last(), "rules.from"@) is None);
    }
    let from = match compile_glob(entry.from.as_str()) {
        Ok(m) => m,
        Err(message) => {
            return Err(bad_glob("rules.from", entry.from.as_str(), message));
        },
    };
    let allow = match compile_globs(&entry.allow, "rules.allow") {
        Ok(v) => v,
        Err(e) => {
            return Err(e);
        },
    };
    let deny = match compile_globs(&entry.deny, "rules.deny") {
        Ok(v) => v,
        Err(e) => {
            return Err(e);
        },
    };
    Ok(ResolvedRule { from, allow, deny })
}

/// The error of a list of rules is that of any start of it that has one.
proof fn lemma_rules_error_take(rules: Seq<BoundaryRule>, n: int)
    requires
        0 <= n <= rules.len(),
        rules_error(rules.take(n)) is Some,
    ensures
        rules_error(rules) == rules_error(rules.take(n)),
    decreases rules.len(),
{
    if n < rules.len() {
        assert(rules.drop_last().take(n) =~= rules.take(n));
        lemma_rules_error_take(rules.drop_last(), n);
    } else {
        assert(rules.take(n) =~= rules);
    }
}

fn resolve_rules(entries: &Vec<RuleFile>) -> (r: Result<Vec<ResolvedRule>, ConfigError>)
    requires
        forall|i: int| 0 <= i < entries@.len() ==> rule_fits(#[trigger] rule_entries(entries@)[i]),
    ensures
        match r {
            Ok(v) => rules_error(rule_entries(entries@)) is None && rules_view(v@)
                == rule_entries(entries@),
            Err(e) => rules_error(rule_entries(entries@)) == Some(e@),
        },
{
    let ghost all = rule_entries(entries@);
    let mut rules: Vec<ResolvedRule> = Vec::new();
    let mut i: usize = 0;
    assert(rules_view(rules@) =~= all.take(0));
    while i < entries.len()
        invariant
            i <= entries@.len(),
            all == rule_entries(entries@),
            forall|i: int| 0 <= i < entries@.len() ==> rule_fits(#[trigger] all[i]),
            rules_error(all.take(i as int)) is None,
            rules_view(rules@) == all.take(i as int),
        decreases entries@.len() - i,
    {
        proof {
            assert(all[i as int] == entries@[i as int]@);
            assert(all.take(i + 1).drop_last() =~= all.take(i as int));
        }
        match resolve_rule(&entries[i]) {
            Ok(rule) => {
                let ghost was = rules_view(rules@);
                rules.push(rule);
                assert(rules_view(rules@) =~= was.push(all[i as int]));
                assert(all.take(i + 1) =~= was.push(all[i as int]));
            },
            Err(e) => {
                proof {
                    lemma_rules_error_take(all, i + 1);
                }
                return Err(e);
            },
        }
        i += 1;
    }
    assert(all.take(i as int) =~= all);
    Ok(rules)
}

/// A project's own entries behind those of the layout that it names, if any.
fn with_preset(file: BoundariesFile) -> (r: (Vec<ZoneFile>, Vec<RuleFile>))
    ensures
        zone_entries(r.0@) == all_zone_entries(file),
        rule_entries(r.1@) == all_rule_entries(file),
{
    match file.preset {
        Some(preset) => {
            let mut canned = preset_layout(preset);
            let mut zones = file.zones;
            let mut rules = file.rules;
            let ghost z = canned.zones@ + zones@;
            let ghost r = canned.rules@ + rules@;
            canned.zones.append(&mut zones);
            canned.rules.append(&mut rules);
            proof {
                assert(zone_entries(z) =~= preset_zones(preset) + zone_entries(file.zones@));
                assert(rule_entries(r) =~= preset_rules(preset) + rule_entries(file.rules@));
            }
            (canned.zones, canned.rules)
        },
        None => (file.zones, file.rules),
    }
}

/// Resolves the boundaries of a project. `listings` says what was found in the
/// directories that its zones are discovered in; one that could not be read is
/// not among them.
pub fn resolve_boundaries(file: BoundariesFile, listings: &Vec<DirListing>) -> (r: Result<
    BoundaryConfig,
    ConfigError,
>)
    requires
        boundaries_fit(file, listings@),
    ensures
        match r {
            Ok(b) => boundaries_error(file, listings@) is None && zones_view(b.zones@) == zones_of(
                all_zone_entries(file),
                listings@,
            ) && rules_view(b.rules@) == all_rule_entries(file),
            Err(e) => boundaries_error(file, listings@) == Some(e@),
        },
{
    let (zone_files, rule_files) = with_preset(file);
    assert(zone_entries(zone_files@).len() == zone_files@.len());
    assert(rule_entries(rule_files@).len() == rule_files@.len());
    let zones = match resolve_zones(&zone_files, listings) {
        Ok(v) => v,
        Err(e) => {
            return Err(e);
        },
    };
    let rules = match resolve_rules(&rule_files) {
        Ok(v) => v,
        Err(e) => {
            return Err(e);
        },
    };
    Ok(BoundaryConfig { zones, rules })
}

/// The directories that the zones of a list are discovered in.
pub open spec fn discovery_dirs(entries: Seq<ZoneEntry>) -> Seq<Seq<char>>
    decreases entries.len(),
{
    if entries.len() == 0 {
        Seq::empty()
    } else {
        discovery_dirs(entries.drop_last()) + entries.last().auto_discover
    }
}

/// The directories that have to be listed before the boundaries are resolved.
pub fn dirs_to_list(file: &BoundariesFile) -> (r: Vec<String>)
    ensures
        views(r@) == discovery_dirs(all_zone_entries(*file)),
{
    let mut r: Vec<String> = Vec::new();
    assert(views(r@) =~= Seq::empty());
    let ghost own = zone_entries(file.zones@);
    match file.preset {
        Some(preset) => {
            let canned = preset_layout(preset);
            add_dirs(&mut r, &canned.zones);
            add_dirs(&mut r, &file.zones);
            proof {
                let a = discovery_dirs(preset_zones(preset));
                assert(Seq::<Seq<char>>::empty() + a =~= a);
                lemma_dirs_concat(preset_zones(preset), own);
            }
        },
        None => {
            add_dirs(&mut r, &file.zones);
            assert(Seq::<Seq<char>>::empty() + discovery_dirs(own) =~= discovery_dirs(own));
        },
    }
    r
}

proof fn lemma_dirs_concat(a: Seq<ZoneEntry>, b: Seq<ZoneEntry>)
    ensures
        discovery_dirs(a + b) == discovery_dirs(a) + discovery_dirs(b),
    decreases b.len(),
{
    if b.len() == 0 {
        assert(a + b =~= a);
        assert(discovery_dirs(a) + discovery_dirs(b) =~= discovery_dirs(a));
    } else {
        assert((a + b).drop_last() =~= a + b.drop_last());
        lemma_dirs_concat(a, b.drop_last());
        assert(discovery_dirs(a + b) =~= discovery_dirs(a) + discovery_dirs(b));
    }
}

fn add_dirs(r: &mut Vec<String>, entries: &Vec<ZoneFile>)
    ensures
        views(final(r)@) == views(old(r)@) + discovery_dirs(zone_entries(entries@)),
{
    let ghost start = views(r@);
    let ghost all = zone_entries(entries@);
    let mut i: usize = 0;
    assert(views(r@) =~= start + discovery_dirs(all.take(0)));
    while i < entries.len()
        invariant
            i <= entries@.len(),
            all == zone_entries(entries@),
            views(r@) == start + discovery_dirs(all.take(i as int)),
        decreases entries@.len() - i,
    {
        let mut dirs = copy_texts(&entries[i].auto_discover);
        let ghost was = r@;
        let ghost more = dirs@;
        r.append(&mut dirs);
        proof {
            assert(all.take(i + 1).drop_last() =~= all.take(i as int));
            assert(all[i as int] == entries@[i as int]@);
            assert(views(was + more) =~= views(was) + views(more));
            assert(views(r@) =~= start + discovery_dirs(all.take(i + 1)));
        }
        i += 1;
    }
    assert(all.take(i as int) =~= all);
}

fn children_are_small(dir: &str, children: &Vec<String>) -> (r: bool)
    ensures
        r == globs_fit(child_patterns(dir@, views(children@))),
{
    let ghost patterns = child_patterns(dir@, views(children@));
    let mut i: usize = 0;
    while i < children.len()
        invariant
            i <= children@.len(),
            patterns == child_patterns(dir@, views(children@)),
            forall|j: int| 0 <= j < i ==> glob_fits(#[trigger] patterns[j]),
        decreases children@.len() - i,
    {
        let mut pattern = dir.to_owned();
        pattern.append("/");
        pattern.append(children[i].as_str());
        pattern.append("/**");
        assert(pattern@ == patterns[i as int]);
        if !glob_is_small(pattern.as_str()) {
            return false;
        }
        i += 1;
    }
    true
}

proof fn lemma_fit_concat(a: Seq<Seq<char>>, b: Seq<Seq<char>>)
    ensures
        globs_fit(a + b) <==> globs_fit(a) && globs_fit(b),
{
    if globs_fit(a + b) {
        assert forall|j: int| 0 <= j < a.len() implies glob_fits(#[trigger] a[j]) by {
            assert((a + b)[j] == a[j]);
        }
        assert forall|j: int| 0 <= j < b.len() implies glob_fits(#[trigger] b[j]) by {
            assert((a + b)[a.len() + j] == b[j]);
        }
    }
}

fn found_are_small(dirs: &Vec<String>, listings: &Vec<DirListing>) -> (r: bool)
    ensures
        r == globs_fit(found_patterns(views(dirs@), listings@)),
{
    let ghost all = views(dirs@);
    let mut i: usize = 0;
    while i < dirs.len()
        invariant
            i <= dirs@.len(),
            all == views(dirs@),
            globs_fit(found_patterns(all.take(i as int), listings@)),
        decreases dirs@.len() - i,
    {
        let dir = dirs[i].as_str();
        let children = found_children(listings, dir);
        proof {
            assert(all.take(i + 1).drop_last() =~= all.take(i as int));
            assert(all.take(i + 1).last() == dir@);
            lemma_fit_concat(
                found_patterns(all.take(i as int), listings@),
                child_patterns(dir@, views(children@)),
            );
        }
        if !children_are_small(dir, &children) {
            proof {
                lemma_found_prefix(all, listings@, i + 1, Seq::empty());
            }
            return false;
        }
        i += 1;
    }
    assert(all.take(i as int) =~= all);
    true
}

/// Whether all patterns of a project's boundaries are small enough.
pub fn boundaries_are_small(file: &BoundariesFile, listings: &Vec<DirListing>) -> (r: bool)
    ensures
        r == boundaries_fit(*file, listings@),
{
    let ghost zones = all_zone_entries(*file);
    let ghost rules = all_rule_entries(*file);
    let ghost own_zones = zone_entries(file.zones@);
    let ghost own_rules = rule_entries(file.rules@);
    match file.preset {
        Some(preset) => {
            let canned = preset_layout(preset);
            let a = zones_are_small(&canned.zones, listings);
            let b = rules_are_small(&canned.rules);
            let c = zones_are_small(&file.zones, listings);
            let d = rules_are_small(&file.rules);
            proof {
                let pz = preset_zones(preset);
                let pr = preset_rules(preset);
                assert forall|i: int| 0 <= i < own_zones.len() implies own_zones[i] == zones[pz.len()
                    + i] by {}
                assert forall|i: int| 0 <= i < own_rules.len() implies own_rules[i] == rules[pr.len()
                    + i] by {}
                assert forall|i: int| 0 <= i < pz.len() implies #[trigger] pz[i] == zones[i] by {}
                assert forall|i: int| 0 <= i < pr.len() implies #[trigger] pr[i] == rules[i] by {}
            }
            a && b && c && d
        },
        None => zones_are_small(&file.zones, listings) && rules_are_small(&file.rules),
    }
}

fn zones_are_small(entries: &Vec<ZoneFile>, listings: &Vec<DirListing>) -> (r: bool)
    ensures
        r == (forall|i: int|
            0 <= i < zone_entries(entries@).len() ==> zone_fits(
                #[trigger] zone_entries(entries@)[i],
                listings@,
            )),
{
    let mut i: usize = 0;
    while i < entries.len()
        invariant
            i <= entries@.len(),
            forall|j: int| 0 <= j < i ==> zone_fits(#[trigger] zone_entries(entries@)[j], listings@),
        decreases entries@.len() - i,
    {
        assert(zone_entries(entries@)[i as int] == entries@[i as int]@);
        if !globs_are_small(&entries[i].patterns) || !found_are_small(
            &entries[i].auto_discover,
            listings,
        ) {
            return false;
        }
        i += 1;
    }
    true
}

fn rules_are_small(entries: &Vec<RuleFile>) -> (r: bool)
    ensures
        r == (forall|i: int|
            0 <= i < rule_entries(entries@).len() ==> rule_fits(
                #[trigger] rule_entries(entries@)[i],
            )),
{
    let mut i: usize = 0;
    while i < entries.len()
        invariant
            i <= entries@.len(),
            forall|j: int| 0 <= j < i ==> rule_fits(#[trigger] rule_entries(entries@)[j]),
        decreases entries@.len() - i,
    {
        assert(rule_entries(entries@)[i as int] == entries@[i as int]@);
        if !glob_is_small(entries[i].from.as_str()) || !globs_are_small(&entries[i].allow)
            || !globs_are_small(&entries[i].deny) {
            return false;
        }
        i += 1;
    }
    true
}

/// A project's own zones extend those of a layout: the zones of the layout come
/// first, unchanged, and then the project's own.
pub proof fn own_zones_extend_the_layout(
    layout: Seq<ZoneEntry>,
    own: Seq<ZoneEntry>,
    listings: Seq<DirListing>,
)
    ensures
        zones_of(layout + own, listings) == zones_of(layout, listings) + zones_of(own, listings),
    decreases own.len(),
{
    if own.len() == 0 {
        assert(layout + own =~= layout);
        assert(zones_of(layout, listings) + zones_of(own, listings) =~= zones_of(layout, listings));
    } else {
        assert((layout + own).drop_last() =~= layout + own.drop_last());
        own_zones_extend_the_layout(layout, own.drop_last(), listings);
        assert(zones_of(layout + own, listings) =~= zones_of(layout, listings) + zones_of(
            own,
            listings,
        ));
    }
}

/// No zone is without a pattern: an entry without patterns makes none of its
/// own, and neither does a directory without Python files.
pub proof fn zones_have_patterns(entries: Seq<ZoneEntry>, listings: Seq<DirListing>, i: int)
    requires
        0 <= i < zones_of(entries, listings).len(),
    ensures
        zones_of(entries, listings)[i].patterns.len() > 0,
    decreases entries.len(),
{
    let entry = entries.last();
    let before = zones_of(entries.drop_last(), listings);
    let own = own_zone(entry);
    let found = found_zones(entry.name, entry.auto_discover, listings);
    if i < before.len() {
        zones_have_patterns(entries.drop_last(), listings, i);
    } else if i >= before.len() + own.len() {
        lemma_found_have_patterns(
            entry.name,
            entry.auto_discover,
            listings,
            i - before.len() - own.len(),
        );
        assert(zones_of(entries, listings)[i] == found[i - before.len() - own.len()]);
    } else {
        assert(zones_of(entries, listings)[i] == own[i - before.len()]);
    }
}

proof fn lemma_found_have_patterns(
    name: Seq<char>,
    dirs: Seq<Seq<char>>,
    listings: Seq<DirListing>,
    i: int,
)
    requires
        0 <= i < found_zones(name, dirs, listings).len(),
    ensures
        found_zones(name, dirs, listings)[i].patterns.len() == 1,
    decreases dirs.len(),
{
    let before = found_zones(name, dirs.drop_last(), listings);
    if i < before.len() {
        lemma_found_have_patterns(name, dirs.drop_last(), listings, i);
    } else {
        let more = child_zones(name, dirs.last(), children_of(listings, dirs.last()));
        assert(found_zones(name, dirs, listings)[i] == more[i - before.len()]);
    }
}

/// Every rule of boundaries that are accepted takes one side: it allows or it
/// denies, and never both.
pub proof fn accepted_rules_take_one_side(rules: Seq<BoundaryRule>, i: int)
    requires
        rules_error(rules) is None,
        0 <= i < rules.len(),
    ensures
        rules[i].allow.len() == 0 || rules[i].deny.len() == 0,
    decreases rules.len(),
{
    if i < rules.len() - 1 {
        accepted_rules_take_one_side(rules.drop_last(), i);
    }
}

/// Whether a rule for `from` denies it to import `to`.
pub open spec fn a_rule_denies(rules: Seq<BoundaryRule>, from: Seq<char>, to: Seq<char>) -> bool {
    exists|i: int|
        0 <= i < rules.len() && (#[trigger] rules[i]).from == from && rules[i].deny.contains(to)
}

/// Whether a rule for `from` allows it to import `to`.
pub open spec fn a_rule_allows(rules: Seq<BoundaryRule>, from: Seq<char>, to: Seq<char>) -> bool {
    exists|i: int|
        0 <= i < rules.len() && (#[trigger] rules[i]).from == from && rules[i].allow.contains(to)
}

/// In the layered layout, with presentation over business over data, a rule from one
/// tier denies another if and only if that is the higher one. No rule is about
/// anything but the tiers, and none allows anything.
pub proof fn lower_tiers_do_not_import_higher_ones(tiers: Seq<Seq<char>>)
    requires
        tiers == seq!["presentation"@, "business"@, "data"@],
    ensures
        forall|a: int, b: int|
            0 <= a < tiers.len() && 0 <= b < tiers.len() ==> (a_rule_denies(
                preset_rules(BoundaryPreset::Layered),
                #[trigger] tiers[a],
                #[trigger] tiers[b],
            ) <==> b < a),
        forall|from: Seq<char>, to: Seq<char>|
            #[trigger] a_rule_denies(preset_rules(BoundaryPreset::Layered), from, to)
                ==> tiers.contains(from) && tiers.contains(to),
        forall|from: Seq<char>, to: Seq<char>|
            !#[trigger] a_rule_allows(preset_rules(BoundaryPreset::Layered), from, to),
{
    reveal_strlit("presentation");
    reveal_strlit("business");
    reveal_strlit("data");
    assert("presentation"@.len() == 12 && "business"@.len() == 8 && "data"@.len() == 4);
    let rules = preset_rules(BoundaryPreset::Layered);
    lemma_two_steps_deny(rules, tiers);
}

/// In the hexagonal layout, with the domain inside the application inside the
/// adapters, a rule from one ring denies another if and only if that lies further
/// out. No rule is about anything but the rings, and none allows anything.
pub proof fn inner_rings_do_not_import_outer_ones(rings: Seq<Seq<char>>)
    requires
        rings == seq!["adapters"@, "application"@, "domain"@],
    ensures
        forall|a: int, b: int|
            0 <= a < rings.len() && 0 <= b < rings.len() ==> (a_rule_denies(
                preset_rules(BoundaryPreset::Hexagonal),
                #[trigger] rings[a],
                #[trigger] rings[b],
            ) <==> b < a),
        forall|from: Seq<char>, to: Seq<char>|
            #[trigger] a_rule_denies(preset_rules(BoundaryPreset::Hexagonal), from, to)
                ==> rings.contains(from) && rings.contains(to),
        forall|from: Seq<char>, to: Seq<char>|
            !#[trigger] a_rule_allows(preset_rules(BoundaryPreset::Hexagonal), from, to),
{
    reveal_strlit("adapters");
    reveal_strlit("application");
    reveal_strlit("domain");
    assert("adapters"@.len() == 8 && "application"@.len() == 11 && "domain"@.len() == 6);
    let rules = preset_rules(BoundaryPreset::Hexagonal);
    lemma_two_steps_deny(rules, rings);
}

/// What two rules say that deny the lowest of three both others, and the middle one
/// the highest.
proof fn lemma_two_steps_deny(rules: Seq<BoundaryRule>, tiers: Seq<Seq<char>>)
    requires
        tiers.len() == 3,
        tiers[0] != tiers[1],
        tiers[0] != tiers[2],
        tiers[1] != tiers[2],
        rules.len() == 2,
        rules[0].from == tiers[2],
        rules[0].allow.len() == 0,
        rules[0].deny =~= seq![tiers[1], tiers[0]] || rules[0].deny =~= seq![tiers[0], tiers[1]],
        rules[1].from == tiers[1],
        rules[1].allow.len() == 0,
        rules[1].deny =~= seq![tiers[0]],
    ensures
        forall|a: int, b: int|
            0 <= a < tiers.len() && 0 <= b < tiers.len() ==> (a_rule_denies(
                rules,
                #[trigger] tiers[a],
                #[trigger] tiers[b],
            ) <==> b < a),
        forall|from: Seq<char>, to: Seq<char>|
            #[trigger] a_rule_denies(rules, from, to) ==> tiers.contains(from) && tiers.contains(to),
        forall|from: Seq<char>, to: Seq<char>| !#[trigger] a_rule_allows(rules, from, to),
{
    let low = rules[0].deny;
    let mid = rules[1].deny;
    assert forall|t: Seq<char>| #[trigger] low.contains(t) <==> t == tiers[0] || t == tiers[1] by {
        assert(low[0] == tiers[0] || low[0] == tiers[1]);
        assert(low[1] == tiers[0] || low[1] == tiers[1]);
        if t == tiers[0] || t == tiers[1] {
            assert(low[0] == t || low[1] == t);
        }
    }
    assert forall|t: Seq<char>| #[trigger] mid.contains(t) <==> t == tiers[0] by {
        assert(mid[0] == tiers[0]);
    }
    assert forall|a: int, b: int| 0 <= a < tiers.len() && 0 <= b < tiers.len() implies (
    a_rule_denies(rules, #[trigger] tiers[a], #[trigger] tiers[b]) <==> b < a) by {
        if b < a {
            if a == 2 {
                assert(rules[0].from == tiers[a] && rules[0].deny.contains(tiers[b]));
            } else {
                assert(rules[1].from == tiers[a] && rules[1].deny.contains(tiers[b]));
            }
        }
    }
    assert forall|from: Seq<char>, to: Seq<char>| #[trigger]
        a_rule_denies(rules, from, to) implies tiers.contains(from) && tiers.contains(to) by {
        let i = choose|i: int|
            0 <= i < rules.len() && (#[trigger] rules[i]).from == from && rules[i].deny.contains(
                to,
            );
        if i == 0 {
            assert(low.contains(to));
        } else {
            assert(mid.contains(to));
        }
    }
}

/// In the sliced layout, with what is shared under entities under features under
/// widgets under pages, every layer has a rule, and the rule allows another layer if
/// and only if that is a lower one: not even another part of the same layer. What is
/// shared has no rule. Nothing is denied one by one.
pub proof fn slices_import_from_below_only(layers: Seq<Seq<char>>)
    requires
        layers == seq!["shared"@, "entities/*"@, "features/*"@, "widgets/*"@, "pages/*"@],
    ensures
        forall|a: int, b: int|
            0 <= a < layers.len() && 0 <= b < layers.len() ==> (a_rule_allows(
                preset_rules(BoundaryPreset::FeatureSliced),
                #[trigger] layers[a],
                #[trigger] layers[b],
            ) <==> b < a),
        forall|from: Seq<char>, to: Seq<char>|
            #[trigger] a_rule_allows(preset_rules(BoundaryPreset::FeatureSliced), from, to)
                ==> layers.contains(from) && layers.contains(to),
        forall|from: Seq<char>, to: Seq<char>|
            !#[trigger] a_rule_denies(preset_rules(BoundaryPreset::FeatureSliced), from, to),
{
    reveal_strlit("shared");
    reveal_strlit("entities/*");
    reveal_strlit("features/*");
    reveal_strlit("widgets/*");
    reveal_strlit("pages/*");
    assert("entities/*"@[0] != "features/*"@[0]);
    assert("shared"@.len() == 6 && "pages/*"@.len() == 7 && "widgets/*"@.len() == 9);
    assert("entities/*"@.len() == 10 && "features/*"@.len() == 10);
    let rules = preset_rules(BoundaryPreset::FeatureSliced);
    assert forall|a: int, b: int| 0 <= a < layers.len() && 0 <= b < a implies a_rule_allows(
        rules,
        #[trigger] layers[a],
        #[trigger] layers[b],
    ) by {
        let allow = rules[a - 1].allow;
        assert(allow[a - 1 - b] == layers[b]);
        assert(rules[a - 1].from == layers[a] && rules[a - 1].allow.contains(layers[b]));
    }
    assert forall|from: Seq<char>, to: Seq<char>| #[trigger]
        a_rule_allows(rules, from, to) implies exists|a: int, b: int|
        0 <= b < a < layers.len() && from == #[trigger] layers[a] && to == #[trigger] layers[b] by {
        let i = choose|i: int|
            0 <= i < rules.len() && (#[trigger] rules[i]).from == from && rules[i].allow.contains(
                to,
            );
        let k = choose|k: int| 0 <= k < rules[i].allow.len() && rules[i].allow[k] == to;
        assert(layers[i + 1] == from && layers[i - k] == to);
    }
    assert forall|a: int, b: int| 0 <= a < layers.len() && 0 <= b < layers.len() && a_rule_allows(
        rules,
        #[trigger] layers[a],
        #[trigger] layers[b],
    ) implies b < a by {
        let (x, y) = choose|x: int, y: int|
            0 <= y < x < layers.len() && layers[a] == #[trigger] layers[x] && layers[b]
                == #[trigger] layers[y];
        assert(x == a && y == b);
    }
}

/// In the bulletproof layout one feature may not import another, and nothing else is
/// denied or has to be allowed: what is shared is free to all.
pub proof fn features_do_not_import_each_other(from: Seq<char>, to: Seq<char>)
    ensures
        a_rule_denies(preset_rules(BoundaryPreset::Bulletproof), from, to) <==> from
            == "features/*"@ && to == "features/*"@,
        !a_rule_allows(preset_rules(BoundaryPreset::Bulletproof), from, to),
{
    let rules = preset_rules(BoundaryPreset::Bulletproof);
    assert(rules[0].deny[0] == "features/*"@);
    if from == "features/*"@ && to == "features/*"@ {
        assert(rules[0].from == from && rules[0].deny.contains(to));
    }
}

/// Every zone of a layout holds what lies under the directory of its name below
/// `src`: either all of it, or one zone for each directory in there.
pub proof fn zones_lie_below_the_sources(preset: BoundaryPreset, i: int)
    requires
        0 <= i < preset_zones(preset).len(),
    ensures
        ({
            let zone = preset_zones(preset)[i];
            (zone.patterns.contains("src/"@ + zone.name + "/**"@) && zone.auto_discover.len() == 0)
                || (zone.patterns.len() == 0 && zone.auto_discover == seq!["src/"@ + zone.name])
        }),
{
    reveal_strlit("src/");
    reveal_strlit("/**");
    reveal_strlit("features");
    reveal_strlit("src/features");
    reveal_strlit("shared");
    reveal_strlit("src/shared/**");
    reveal_strlit("presentation");
    reveal_strlit("src/presentation/**");
    reveal_strlit("business");
    reveal_strlit("src/business/**");
    reveal_strlit("data");
    reveal_strlit("src/data/**");
    reveal_strlit("domain");
    reveal_strlit("src/domain/**");
    reveal_strlit("application");
    reveal_strlit("src/application/**");
    reveal_strlit("adapters");
    reveal_strlit("src/adapters/**");
    reveal_strlit("entities");
    reveal_strlit("src/entities");
    reveal_strlit("widgets");
    reveal_strlit("src/widgets");
    reveal_strlit("pages");
    reveal_strlit("src/pages");
    let zone = preset_zones(preset)[i];
    if zone.patterns.len() > 0 {
        assert(zone.patterns[0] =~= "src/"@ + zone.name + "/**"@);
        assert(zone.patterns.contains(zone.patterns[0]));
    } else {
        assert(zone.auto_discover =~~= seq!["src/"@ + zone.name]);
    }
}

/// Naming a layout drops nothing of a project's own: its zones and rules come last,
/// in their order, and with a layout every rule of that still holds.
pub proof fn own_rules_extend_the_layout(file: BoundariesFile, from: Seq<char>, to: Seq<char>)
    ensures
        has_tail(all_zone_entries(file), zone_entries(file.zones@)),
        has_tail(all_rule_entries(file), rule_entries(file.rules@)),
        a_rule_denies(all_rule_entries(file), from, to) <==> a_rule_denies(
            rule_entries(file.rules@),
            from,
            to,
        ) || (file.preset is Some && a_rule_denies(preset_rules(file.preset->0), from, to)),
        a_rule_allows(all_rule_entries(file), from, to) <==> a_rule_allows(
            rule_entries(file.rules@),
            from,
            to,
        ) || (file.preset is Some && a_rule_allows(preset_rules(file.preset->0), from, to)),
{
    let own = rule_entries(file.rules@);
    let all = all_rule_entries(file);
    assert(all_zone_entries(file).skip(
        all_zone_entries(file).len() - zone_entries(file.zones@).len(),
    ) =~= zone_entries(file.zones@));
    assert(all.skip(all.len() - own.len()) =~= own);
    let n = all.len() - own.len();
    assert forall|i: int| 0 <= i < own.len() implies all[n + i] == #[trigger] own[i] by {}
    if file.preset is Some {
        let canned = preset_rules(file.preset->0);
        assert forall|i: int| 0 <= i < canned.len() implies all[i] == #[trigger] canned[i] by {}
        assert(n == canned.len());
    } else {
        assert(n == 0);
    }
    if a_rule_denies(all, from, to) {
        let i = choose|i: int|
            0 <= i < all.len() && (#[trigger] all[i]).from == from && all[i].deny.contains(to);
        if i >= n {
            assert(own[i - n].from == from);
        } else {
            assert(preset_rules(file.preset->0)[i].from == from);
        }
    }
    if a_rule_allows(all, from, to) {
        let i = choose|i: int|
            0 <= i < all.len() && (#[trigger] all[i]).from == from && all[i].allow.contains(to);
        if i >= n {
            assert(own[i - n].from == from);
        } else {
            assert(preset_rules(file.preset->0)[i].from == from);
        }
    }
    if a_rule_denies(own, from, to) {
        let i = choose|i: int|
            0 <= i < own.len() && (#[trigger] own[i]).from == from && own[i].deny.contains(to);
        assert(all[n + i].from == from);
    }
    if a_rule_allows(own, from, to) {
        let i = choose|i: int|
            0 <= i < own.len() && (#[trigger] own[i]).from == from && own[i].allow.contains(to);
        assert(all[n + i].from == from);
    }
    if file.preset is Some {
        let canned = preset_rules(file.preset->0);
        if a_rule_denies(canned, from, to) {
            let i = choose|i: int|
                0 <= i < canned.len() && (#[trigger] canned[i]).from == from
                    && canned[i].deny.contains(to);
            assert(all[i].from == from);
        }
        if a_rule_allows(canned, from, to) {
            let i = choose|i: int|
                0 <= i < canned.len() && (#[trigger] canned[i]).from == from
                    && canned[i].allow.contains(to);
            assert(all[i].from == from);
        }
    }
}

/// Whether a list ends with another.
pub open spec fn has_tail<T>(all: Seq<T>, tail: Seq<T>) -> bool {
    tail.len() <= all.len() && all.skip(all.len() - tail.len()) == tail
}

/// Each directory in a listed directory of a zone that holds a Python file becomes a
/// zone of its own, named and filled after it.
pub proof fn directories_with_python_become_zones(
    entries: Seq<ZoneEntry>,
    listings: Seq<DirListing>,
    e: int,
    d: int,
    l: int,
    c: int,
)
    requires
        0 <= e < entries.len(),
        0 <= d < entries[e].auto_discover.len(),
        0 <= l < listings.len(),
        forall|j: int| 0 <= j < l ==> (#[trigger] listings[j]).dir@ != entries[e].auto_discover[d],
        listings[l].dir@ == entries[e].auto_discover[d],
        0 <= c < listings[l].children@.len(),
        exists|f: int|
            0 <= f < listings[l].children@[c].files@.len() && is_python_name(
                #[trigger] views(listings[l].children@[c].files@)[f],
            ),
    ensures
        zones_of(entries, listings).contains(
            (Zone {
                name: entries[e].name + "/"@ + listings[l].children@[c].name@,
                patterns: seq![
                    entries[e].auto_discover[d] + "/"@ + listings[l].children@[c].name@ + "/**"@,
                ],
            }),
        ),
    decreases entries.len(),
{
    let dir = entries[e].auto_discover[d];
    let child = listings[l].children@[c].name@;
    let zone = Zone {
        name: entries[e].name + "/"@ + child,
        patterns: seq![dir + "/"@ + child + "/**"@],
    };
    let all = zones_of(entries, listings);
    let before = zones_of(entries.drop_last(), listings);
    if e < entries.len() - 1 {
        directories_with_python_become_zones(entries.drop_last(), listings, e, d, l, c);
        let k = choose|k: int| 0 <= k < before.len() && before[k] == zone;
        assert(all[k] == zone);
    } else {
        let own = own_zone(entries[e]);
        let found = found_zones(entries[e].name, entries[e].auto_discover, listings);
        lemma_children_found(listings, dir, l, c);
        lemma_children_become_zones(
            entries[e].name,
            entries[e].auto_discover,
            listings,
            d,
            child,
        );
        let k = choose|k: int| 0 <= k < found.len() && found[k] == zone;
        assert(all[before.len() + own.len() + k] == zone);
    }
}

proof fn lemma_children_found(listings: Seq<DirListing>, dir: Seq<char>, l: int, c: int)
    requires
        0 <= l < listings.len(),
        forall|j: int| 0 <= j < l ==> (#[trigger] listings[j]).dir@ != dir,
        listings[l].dir@ == dir,
        0 <= c < listings[l].children@.len(),
        holds_python(listings[l].children@[c]),
    ensures
        children_of(listings, dir).contains(listings[l].children@[c].name@),
    decreases l,
{
    if l == 0 {
        let names = python_dirs(listings[0].children@);
        lemma_python_dirs(listings[0].children@, c);
        sorting_sorts(names);
        broadcast use vstd::seq_lib::group_to_multiset_ensures;

        let x = listings[0].children@[c].name@;
        assert(names.to_multiset().contains(x));
        assert(sorted_texts(names).to_multiset().contains(x));
    } else {
        let rest = listings.skip(1);
        assert(listings[0].dir@ != dir);
        assert forall|j: int| 0 <= j < l - 1 implies (#[trigger] rest[j]).dir@ != dir by {
            assert(rest[j] == listings[j + 1]);
        }
        assert(rest[l - 1] == listings[l]);
        lemma_children_found(rest, dir, l - 1, c);
    }
}

proof fn lemma_python_dirs(children: Seq<ChildDir>, c: int)
    requires
        0 <= c < children.len(),
        holds_python(children[c]),
    ensures
        python_dirs(children).contains(children[c].name@),
    decreases children.len(),
{
    let all = python_dirs(children);
    let before = python_dirs(children.drop_last());
    let x = children[c].name@;
    if c < children.len() - 1 {
        lemma_python_dirs(children.drop_last(), c);
        let k = choose|k: int| 0 <= k < before.len() && before[k] == x;
        assert(all[k] == x);
    } else {
        assert(all[before.len() as int] == x);
    }
}

proof fn lemma_children_become_zones(
    name: Seq<char>,
    dirs: Seq<Seq<char>>,
    listings: Seq<DirListing>,
    d: int,
    child: Seq<char>,
)
    requires
        0 <= d < dirs.len(),
        children_of(listings, dirs[d]).contains(child),
    ensures
        found_zones(name, dirs, listings).contains(
            (Zone {
                name: name + "/"@ + child,
                patterns: seq![dirs[d] + "/"@ + child + "/**"@],
            }),
        ),
    decreases dirs.len(),
{
    let zone = Zone { name: name + "/"@ + child, patterns: seq![dirs[d] + "/"@ + child + "/**"@] };
    let all = found_zones(name, dirs, listings);
    let before = found_zones(name, dirs.drop_last(), listings);
    if d < dirs.len() - 1 {
        lemma_children_become_zones(name, dirs.drop_last(), listings, d, child);
        let k = choose|k: int| 0 <= k < before.len() && before[k] == zone;
        assert(all[k] == zone);
    } else {
        let children = children_of(listings, dirs[d]);
        let k = choose|k: int| 0 <= k < children.len() && children[k] == child;
        let more = child_zones(name, dirs[d], children);
        assert(more[k] =~= zone);
        assert(all[before.len() + k] == zone);
    }
}

/// A name is that of a Python file if and only if it is something and `.py`.
pub proof fn python_names_end_in_py(stem: Seq<char>, name: Seq<char>)
    ensures
        is_python_name(stem + ".py"@) <==> stem.len() > 0,
        is_python_name(name) ==> name.skip(name.len() - 3) == ".py"@,
{
    reveal_strlit(".py");
    let s = stem + ".py"@;
    assert(s.skip(s.len() - 3) =~= ".py"@);
}

/// Only directories with a Python file become zones: what is found in a directory is
/// the name of one of its listed directories that holds one.
pub proof fn empty_directories_become_no_zones(
    listings: Seq<DirListing>,
    dir: Seq<char>,
    name: Seq<char>,
)
    requires
        children_of(listings, dir).contains(name),
    ensures
        exists|l: int, c: int|
            0 <= l < listings.len() && listings[l].dir@ == dir && 0 <= c
                < listings[l].children@.len() && (#[trigger] listings[l].children@[c]).name@ == name
                && holds_python(listings[l].children@[c]),
    decreases listings.len(),
{
    if listings[0].dir@ == dir {
        let names = python_dirs(listings[0].children@);
        sorting_sorts(names);
        broadcast use vstd::seq_lib::group_to_multiset_ensures;

        assert(sorted_texts(names).to_multiset().contains(name));
        assert(names.to_multiset().contains(name));
        assert(names.contains(name));
        let c = lemma_python_dir_found(listings[0].children@, name);
        assert(listings[0].children@[c].name@ == name);
    } else {
        empty_directories_become_no_zones(listings.skip(1), dir, name);
        let rest = listings.skip(1);
        let (l, c) = choose|l: int, c: int|
            0 <= l < rest.len() && rest[l].dir@ == dir && 0 <= c < rest[l].children@.len() && (
            #[trigger] rest[l].children@[c]).name@ == name && holds_python(rest[l].children@[c]);
        assert(listings[l + 1] == rest[l]);
        assert(listings[l + 1].children@[c].name@ == name);
    }
}

proof fn lemma_python_dir_found(children: Seq<ChildDir>, name: Seq<char>) -> (c: int)
    requires
        python_dirs(children).contains(name),
    ensures
        0 <= c < children.len(),
        children[c].name@ == name,
        holds_python(children[c]),
    decreases children.len(),
{
    let all = python_dirs(children);
    let before = python_dirs(children.drop_last());
    let i = choose|i: int| 0 <= i < all.len() && all[i] == name;
    if i < before.len() {
        assert(before[i] == name);
        lemma_python_dir_found(children.drop_last(), name)
    } else {
        children.len() - 1
    }
}

/// Every directory that zones are discovered in is asked for, those of a layout too.
pub proof fn every_directory_is_listed(file: BoundariesFile, e: int, d: int)
    requires
        0 <= e < all_zone_entries(file).len(),
        0 <= d < all_zone_entries(file)[e].auto_discover.len(),
    ensures
        discovery_dirs(all_zone_entries(file)).contains(
            all_zone_entries(file)[e].auto_discover[d],
        ),
{
    lemma_dir_listed(all_zone_entries(file), e, d);
}

proof fn lemma_dir_listed(entries: Seq<ZoneEntry>, e: int, d: int)
    requires
        0 <= e < entries.len(),
        0 <= d < entries[e].auto_discover.len(),
    ensures
        discovery_dirs(entries).contains(entries[e].auto_discover[d]),
    decreases entries.len(),
{
    let all = discovery_dirs(entries);
    let before = discovery_dirs(entries.drop_last());
    let x = entries[e].auto_discover[d];
    if e < entries.len() - 1 {
        lemma_dir_listed(entries.drop_last(), e, d);
        let k = choose|k: int| 0 <= k < before.len() && before[k] == x;
        assert(all[k] == x);
    } else {
        assert(all[before.len() + d] == x);
    }
}

/// A rule that both allows and denies is refused, as such; boundaries with it are
/// never accepted. Rules that take one side and have good patterns are.
pub proof fn rules_are_accepted_one_by_one(rules: Seq<BoundaryRule>, rule: BoundaryRule)
    ensures
        rule.allow.len() > 0 && rule.deny.len() > 0 ==> rule_error(rule) == Some(
            ConfigErrorView::ConflictingBoundaryRule { from: rule.from },
        ),
        rules_error(rules) is None <==> forall|i: int|
            0 <= i < rules.len() ==> rule_error(#[trigger] rules[i]) is None,
    decreases rules.len(),
{
    if rules.len() > 0 {
        let front = rules.drop_last();
        rules_are_accepted_one_by_one(front, rule);
        if rules_error(rules) is None {
            assert forall|i: int| 0 <= i < rules.len() implies rule_error(
                #[trigger] rules[i],
            ) is None by {
                if i < front.len() {
                    assert(front[i] == rules[i]);
                }
            }
        }
        if forall|i: int| 0 <= i < rules.len() ==> rule_error(#[trigger] rules[i]) is None {
            assert forall|i: int| 0 <= i < front.len() implies rule_error(
                #[trigger] front[i],
            ) is None by {
                assert(front[i] == rules[i]);
            }
            assert(rule_error(rules[rules.len() - 1]) is None);
        }
    }
}

/// Patterns are accepted if and only if each of them is.
pub proof fn patterns_are_accepted_one_by_one(patterns: Seq<Seq<char>>, context: Seq<char>)
    ensures
        globs_error(patterns, context) is None <==> forall|i: int|
            0 <= i < patterns.len() ==> glob_error(#[trigger] patterns[i]) is None,
    decreases patterns.len(),
{
    if patterns.len() > 0 {
        let front = patterns.drop_last();
        patterns_are_accepted_one_by_one(front, context);
        if globs_error(patterns, context) is None {
            assert forall|i: int| 0 <= i < patterns.len() implies glob_error(
                #[trigger] patterns[i],
            ) is None by {
                if i < front.len() {
                    assert(front[i] == patterns[i]);
                }
            }
        }
        if forall|i: int| 0 <= i < patterns.len() ==> glob_error(#[trigger] patterns[i]) is None {
            assert forall|i: int| 0 <= i < front.len() implies glob_error(
                #[trigger] front[i],
            ) is None by {
                assert(front[i] == patterns[i]);
            }
            assert(glob_error(patterns[patterns.len() - 1]) is None);
        }
    }
}

} // verus!
