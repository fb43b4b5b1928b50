//! The report as a SARIF 2.1.0 document, for code scanning.
use crate::issue::{
    issue_views, occurrence_views, path_views, AnalysisResults, DuplicateOccurrence, Issue, IssueView,
    OccurrenceView,
};
use crate::order::{distinct_texts, sort_distinct};
use crate::path::{FilePath, PathView};
use crate::report::json::{diagnostic_of, TOOL_NAME};
use crate::report::markdown::{issue_keys, keys_of, of_rule, with_rule};
use crate::report::tree::{field, fields, item, json_text, tree, trees, write_json, Json, JsonView};
use crate::report::{cycle_path, format_cycle_path, relative_posix, relative_text};
use crate::scope::ResolvedPath;
use crate::text::{
    chars_of, decimal, decimal_text, is_ascii_lower, same, split, split_on, text_of, views,
};
use vstd::prelude::*;

verus! {

pub const SCHEMA: &'static str =
    "https://raw.githubusercontent.com/oasis-tcs/sarif-spec/main/Documents/CommitteeSpecifications/2.1.0/sarif-schema-2.1.0.json";

pub const VERSION: &'static str = "2.1.0";

pub const TOOL_VERSION: &'static str = "0.0.6";

pub const INFORMATION_URI: &'static str = "https://github.com/carlosarraes/pyllow";

pub const README_BASE: &'static str = "https://github.com/carlosarraes/pyllow/blob/main/README.md";

/// A letter in upper case, if it is an ASCII letter.
pub open spec fn ascii_upper(c: char) -> char {
    if is_ascii_lower(c) {
        (c as u32 - 32) as char
    } else {
        c
    }
}

/// A word with a capital letter at its start.
pub open spec fn capitalized(word: Seq<char>) -> Seq<char> {
    if word.len() == 0 {
        word
    } else {
        word.update(0, ascii_upper(word[0]))
    }
}

/// The words of a list, capitalized, without anything between them.
pub open spec fn run_together(words: Seq<Seq<char>>) -> Seq<char>
    decreases words.len(),
{
    if words.len() == 0 {
        Seq::empty()
    } else {
        run_together(words.drop_last()) + capitalized(words.last())
    }
}

/// A name with hyphens as one word with capital letters.
pub open spec fn pascal(name: Seq<char>) -> Seq<char> {
    run_together(split_on(name, '-'))
}

fn capitalize(word: &str) -> (r: String)
    ensures
        r@ == capitalized(word@),
{
    let mut v = chars_of(word);
    if v.len() > 0 {
        let c: char = v[0];
        let upper: char = upper_of(c);
        v.set(0, upper);
    }
    text_of(&v)
}

fn upper_of(c: char) -> (r: char)
    ensures
        r == ascii_upper(c),
{
    if 'a' <= c && c <= 'z' {
        let n: u8 = c as u8 - 32;
        n as char
    } else {
        c
    }
}

/// A name with hyphens as one word with capital letters.
pub fn kebab_to_pascal(name: &str) -> (r: String)
    ensures
        r@ == pascal(name@),
{
    let words = split(name, '-');
    let ghost all = views(words@);
    let mut r = String::new();
    let mut i: usize = 0;
    assert(r@ =~= run_together(all.take(0)));
    while i < words.len()
        invariant
            i <= words@.len(),
            all == views(words@),
            r@ == run_together(all.take(i as int)),
        decreases words@.len() - i,
    {
        proof {
            assert(all.take(i + 1).drop_last() =~= all.take(i as int));
            assert(all.take(i + 1).last() == words@[i as int]@);
        }
        r.append(capitalize(words[i].as_str()).as_str());
        i += 1;
    }
    assert(all.take(i as int) =~= all);
    r
}

/// What a result says.
pub open spec fn result_message(issue: IssueView) -> Seq<char> {
    match issue {
        IssueView::UnusedFile { path } => "File `"@ + path.text()
            + "` is not reachable from any entry point"@,
        IssueView::UnusedImport { name, module, .. } => "Unused import `"@ + name + "` from `"@
            + module + "`"@,
        IssueView::UnusedDep { name, source, .. } => "Dependency `"@ + name + "` declared in `"@
            + source + "` is never imported"@,
        IssueView::Duplicate { token_count, occurrences } => "Duplicate code: "@ + decimal(
            token_count as nat,
        ) + " tokens repeated across "@ + decimal(occurrences.len()) + " location(s)"@,
        IssueView::Complexity { function, cyclomatic, cognitive, .. } => "Function `"@ + function
            + "` has high complexity (cyclomatic="@ + decimal(cyclomatic as nat) + ", cognitive="@
            + decimal(cognitive as nat) + ")"@,
        IssueView::LowMaintainability { score, avg_cyclomatic, loc, .. } =>
        "Low maintainability index: "@ + decimal(score as nat) + " (avg cc="@ + avg_cyclomatic.shown
            + ", loc="@ + decimal(loc as nat) + ")"@,
        IssueView::Hotspot { cyclomatic, churn, score, .. } => "Hotspot: cc="@ + decimal(
            cyclomatic as nat,
        ) + " × churn="@ + decimal(churn as nat) + " → "@ + score.shown,
        IssueView::Smell { detail, .. } => detail,
        IssueView::CircularDependency { cycle } => "Circular dependency: "@ + cycle_path(cycle),
        _ => issue.message(),
    }
}

/// An object with one field.
pub open spec fn single(name: Seq<char>, value: JsonView) -> JsonView {
    JsonView::Object(seq![(name, value)])
}

/// A region of lines; of nothing if there are none.
pub open spec fn region(range: Option<(u32, u32)>) -> JsonView {
    match range {
        Some(r) => JsonView::Object(
            seq![
                ("startLine"@, JsonView::Number(r.0 as u64)),
                ("endLine"@, JsonView::Number(r.1 as u64)),
            ],
        ),
        None => JsonView::Object(Seq::empty()),
    }
}

/// A place in a file.
pub open spec fn place(uri: Seq<char>, region: JsonView) -> JsonView {
    single(
        "physicalLocation"@,
        JsonView::Object(
            seq![("artifactLocation"@, single("uri"@, JsonView::Text(uri))), ("region"@, region)],
        ),
    )
}

/// A file.
pub open spec fn file_place(uri: Seq<char>) -> JsonView {
    single(
        "physicalLocation"@,
        single("artifactLocation"@, single("uri"@, JsonView::Text(uri))),
    )
}

/// Where a finding is.
pub open spec fn location_of(issue: IssueView, root: PathView, known: Seq<ResolvedPath>) -> JsonView {
    place(relative_text(issue.path(), root, known), region(issue.range()))
}

/// The places of a clone.
pub open spec fn copy_places(
    occurrences: Seq<OccurrenceView>,
    root: PathView,
    known: Seq<ResolvedPath>,
) -> Seq<JsonView> {
    occurrences.map_values(
        |o: OccurrenceView|
            place(relative_text(o.path, root, known), region(Some((o.start_line, o.end_line)))),
    )
}

/// The files of a cycle.
pub open spec fn file_places(
    cycle: Seq<PathView>,
    root: PathView,
    known: Seq<ResolvedPath>,
) -> Seq<JsonView> {
    cycle.map_values(|p: PathView| file_place(relative_text(p, root, known)))
}

/// All but the first of a list.
pub open spec fn others(v: Seq<JsonView>) -> Seq<JsonView> {
    if v.len() == 0 {
        v
    } else {
        v.skip(1)
    }
}

/// Where else a finding is: the other places of a clone, the other files of a
/// cycle.
pub open spec fn related_of(issue: IssueView, root: PathView, known: Seq<ResolvedPath>) -> Seq<
    JsonView,
> {
    match issue {
        IssueView::Duplicate { occurrences, .. } => others(copy_places(occurrences, root, known)),
        IssueView::CircularDependency { cycle } => others(file_places(cycle, root, known)),
        _ => Seq::empty(),
    }
}

/// The place of a text in a list.
pub open spec fn index_in(v: Seq<Seq<char>>, text: Seq<char>) -> Option<int>
    decreases v.len(),
{
    if v.len() == 0 {
        None
    } else {
        match index_in(v.drop_last(), text) {
            Some(i) => Some(i),
            None => if v.last() == text {
                Some(v.len() - 1)
            } else {
                None
            },
        }
    }
}

/// The result for a finding.
pub open spec fn result_of(
    issue: IssueView,
    rules: Seq<Seq<char>>,
    root: PathView,
    known: Seq<ResolvedPath>,
) -> JsonView {
    let base = seq![
        ("ruleId"@, JsonView::Text(issue.rule_key())),
        ("level"@, JsonView::Text(issue.level())),
        ("message"@, single("text"@, JsonView::Text(result_message(issue)))),
        ("locations"@, JsonView::List(seq![location_of(issue, root, known)])),
    ];
    let indexed = match index_in(rules, issue.rule_key()) {
        Some(i) => base.push(("ruleIndex"@, JsonView::Number(i as u64))),
        None => base,
    };
    let related = related_of(issue, root, known);
    JsonView::Object(
        if related.len() == 0 {
            indexed
        } else {
            indexed.push(("relatedLocations"@, JsonView::List(related)))
        },
    )
}

/// The results for a list of findings.
pub open spec fn results_of(
    issues: Seq<IssueView>,
    rules: Seq<Seq<char>>,
    root: PathView,
    known: Seq<ResolvedPath>,
) -> Seq<JsonView> {
    issues.map_values(|i: IssueView| result_of(i, rules, root, known))
}

/// The entry of a rule, described as by its first finding.
pub open spec fn rule_entry(rule: Seq<char>, first: IssueView) -> JsonView {
    JsonView::Object(
        seq![
            ("id"@, JsonView::Text(rule)),
            ("name"@, JsonView::Text(pascal(rule))),
            ("shortDescription"@, single("text"@, JsonView::Text(first.description()))),
            ("helpUri"@, JsonView::Text(README_BASE@ + "#rule-"@ + rule)),
            ("defaultConfiguration"@, single("level"@, JsonView::Text(first.level()))),
        ],
    )
}

/// The entries of a list of rules.
pub open spec fn rule_entries(rules: Seq<Seq<char>>, issues: Seq<IssueView>) -> Seq<JsonView> {
    rules.map_values(|r: Seq<char>| rule_entry(r, of_rule(issues, r)[0]))
}

/// The document: every rule with a finding once, in the order of their names, and
/// a result for every finding.
pub open spec fn sarif_of(issues: Seq<IssueView>, root: PathView, known: Seq<ResolvedPath>) -> JsonView {
    let rules = distinct_texts(issue_keys(issues));
    let driver = JsonView::Object(
        seq![
            ("name"@, JsonView::Text(TOOL_NAME@)),
            ("version"@, JsonView::Text(TOOL_VERSION@)),
            ("informationUri"@, JsonView::Text(INFORMATION_URI@)),
            ("rules"@, JsonView::List(rule_entries(rules, issues))),
        ],
    );
    let run = JsonView::Object(
        seq![
            ("tool"@, single("driver"@, driver)),
            ("results"@, JsonView::List(results_of(issues, rules, root, known))),
        ],
    );
    JsonView::Object(
        seq![
            ("$schema"@, JsonView::Text(SCHEMA@)),
            ("version"@, JsonView::Text(VERSION@)),
            ("runs"@, JsonView::List(seq![run])),
        ],
    )
}

fn text(s: &str) -> (r: Json)
    ensures
        tree(r) == JsonView::Text(s@),
{
    Json::Text(s.to_owned())
}

fn one_field(name: &str, value: Json) -> (r: Json)
    ensures
        tree(r) == single(name@, tree(value)),
{
    let mut v: Vec<(String, Json)> = Vec::new();
    field(&mut v, name, value);
    assert(fields(v@) =~= seq![(name@, tree(value))]);
    Json::Object(v)
}

fn region_json(range: Option<(u32, u32)>) -> (r: Json)
    ensures
        tree(r) == region(range),
{
    let mut v: Vec<(String, Json)> = Vec::new();
    if let Some((start, end)) = range {
        field(&mut v, "startLine", Json::Number(start as u64));
        field(&mut v, "endLine", Json::Number(end as u64));
        assert(fields(v@) =~= seq![
            ("startLine"@, JsonView::Number(start as u64)),
            ("endLine"@, JsonView::Number(end as u64)),
        ]);
    } else {
        assert(fields(v@) =~= Seq::empty());
    }
    Json::Object(v)
}

fn place_json(uri: &str, area: Json) -> (r: Json)
    ensures
        tree(r) == place(uri@, tree(area)),
{
    let ghost shape = tree(area);
    let mut v: Vec<(String, Json)> = Vec::new();
    field(&mut v, "artifactLocation", one_field("uri", text(uri)));
    field(&mut v, "region", area);
    assert(fields(v@) =~= seq![
        ("artifactLocation"@, single("uri"@, JsonView::Text(uri@))),
        ("region"@, shape),
    ]);
    one_field("physicalLocation", Json::Object(v))
}

fn file_json(uri: &str) -> (r: Json)
    ensures
        tree(r) == file_place(uri@),
{
    one_field("physicalLocation", one_field("artifactLocation", one_field("uri", text(uri))))
}

fn physical_location(issue: &Issue, root: &FilePath, known: &Vec<ResolvedPath>) -> (r: Json)
    ensures
        tree(r) == location_of(issue@, root@, known@),
{
    let uri = relative_posix(&issue.path(), root, known);
    place_json(uri.as_str(), region_json(issue.range()))
}

fn other_copies(
    occurrences: &Vec<DuplicateOccurrence>,
    root: &FilePath,
    known: &Vec<ResolvedPath>,
) -> (r: Vec<Json>)
    ensures
        trees(r@) == others(copy_places(occurrence_views(occurrences@), root@, known@)),
{
    let ghost all = copy_places(occurrence_views(occurrences@), root@, known@);
    let mut r: Vec<Json> = Vec::new();
    if occurrences.len() == 0 {
        assert(trees(r@) =~= others(all));
        return r;
    }
    let mut i: usize = 1;
    assert(trees(r@) =~= others(all).take(0));
    while i < occurrences.len()
        invariant
            1 <= i <= occurrences@.len(),
            all == copy_places(occurrence_views(occurrences@), root@, known@),
            trees(r@) == others(all).take(i - 1),
        decreases occurrences@.len() - i,
    {
        let o = &occurrences[i];
        assert(occurrence_views(occurrences@)[i as int] == o@);
        let uri = relative_posix(&o.path, root, known);
        let ghost was = trees(r@);
        item(
            &mut r,
            place_json(uri.as_str(), region_json(Some((o.start_line, o.end_line)))),
        );
        assert(trees(r@) =~= was.push(all[i as int]));
        i += 1;
        assert(trees(r@) =~= others(all).take(i - 1));
    }
    assert(trees(r@) =~= others(all));
    r
}

fn other_files(cycle: &Vec<FilePath>, root: &FilePath, known: &Vec<ResolvedPath>) -> (r: Vec<Json>)
    ensures
        trees(r@) == others(file_places(path_views(cycle@), root@, known@)),
{
    let ghost all = file_places(path_views(cycle@), root@, known@);
    let mut r: Vec<Json> = Vec::new();
    if cycle.len() == 0 {
        assert(trees(r@) =~= others(all));
        return r;
    }
    let mut i: usize = 1;
    assert(trees(r@) =~= others(all).take(0));
    while i < cycle.len()
        invariant
            1 <= i <= cycle@.len(),
            all == file_places(path_views(cycle@), root@, known@),
            trees(r@) == others(all).take(i - 1),
        decreases cycle@.len() - i,
    {
        assert(path_views(cycle@)[i as int] == cycle@[i as int]@);
        let uri = relative_posix(&cycle[i], root, known);
        let ghost was = trees(r@);
        item(&mut r, file_json(uri.as_str()));
        assert(trees(r@) =~= was.push(all[i as int]));
        i += 1;
        assert(trees(r@) =~= others(all).take(i - 1));
    }
    assert(trees(r@) =~= others(all));
    r
}

fn related_locations(issue: &Issue, root: &FilePath, known: &Vec<ResolvedPath>) -> (r: Vec<Json>)
    ensures
        trees(r@) == related_of(issue@, root@, known@),
{
    match issue {
        Issue::Duplicate { occurrences, .. } => other_copies(occurrences, root, known),
        Issue::CircularDependency { cycle } => other_files(cycle, root, known),
        _ => {
            let r: Vec<Json> = Vec::new();
            assert(trees(r@) =~= Seq::empty());
            r
        },
    }
}

fn message(issue: &Issue) -> (r: String)
    ensures
        r@ == result_message(issue@),
{
    match issue {
        Issue::UnusedFile { path } => {
            let mut r = "File `".to_owned();
            r.append(path.text().as_str());
            r.append("` is not reachable from any entry point");
            r
        },
        Issue::UnusedImport { name, module, .. } => {
            let mut r = "Unused import `".to_owned();
            r.append(name.as_str());
            r.append("` from `");
            r.append(module.as_str());
            r.append("`");
            r
        },
        Issue::UnusedDep { name, source, .. } => {
            let mut r = "Dependency `".to_owned();
            r.append(name.as_str());
            r.append("` declared in `");
            r.append(source.as_str());
            r.append("` is never imported");
            r
        },
        Issue::Duplicate { token_count, occurrences } => {
            let mut r = "Duplicate code: ".to_owned();
            r.append(decimal_text(*token_count as u64).as_str());
            r.append(" tokens repeated across ");
            r.append(decimal_text(occurrences.len() as u64).as_str());
            r.append(" location(s)");
            r
        },
        Issue::Complexity { function, cyclomatic, cognitive, .. } => {
            let mut r = "Function `".to_owned();
            r.append(function.as_str());
            r.append("` has high complexity (cyclomatic=");
            r.append(decimal_text(*cyclomatic as u64).as_str());
            r.append(", cognitive=");
            r.append(decimal_text(*cognitive as u64).as_str());
            r.append(")");
            r
        },
        Issue::LowMaintainability { score, avg_cyclomatic, loc, .. } => {
            let mut r = "Low maintainability index: ".to_owned();
            r.append(decimal_text(*score as u64).as_str());
            r.append(" (avg cc=");
            r.append(avg_cyclomatic.shown.as_str());
            r.append(", loc=");
            r.append(decimal_text(*loc as u64).as_str());
            r.append(")");
            r
        },
        Issue::Hotspot { cyclomatic, churn, score, .. } => {
            let mut r = "Hotspot: cc=".to_owned();
            r.append(decimal_text(*cyclomatic as u64).as_str());
            r.append(" × churn=");
            r.append(decimal_text(*churn as u64).as_str());
            r.append(" → ");
            r.append(score.shown.as_str());
            r
        },
        Issue::Smell { detail, .. } => detail.clone(),
        Issue::CircularDependency { cycle } => {
            let mut r = "Circular dependency: ".to_owned();
            r.append(format_cycle_path(cycle).as_str());
            r
        },
        _ => issue.message(),
    }
}

proof fn lemma_index_take(v: Seq<Seq<char>>, text: Seq<char>, n: int)
    requires
        0 <= n <= v.len(),
        index_in(v.take(n), text) is Some,
    ensures
        index_in(v, text) == index_in(v.take(n), text),
    decreases v.len(),
{
    if n < v.len() {
        assert(v.drop_last().take(n) =~= v.take(n));
        lemma_index_take(v.drop_last(), text, n);
    } else {
        assert(v.take(n) =~= v);
    }
}

fn index_of(v: &Vec<String>, text: &str) -> (r: Option<usize>)
    ensures
        match r {
            Some(i) => index_in(views(v@), text@) == Some(i as int),
            None => index_in(views(v@), text@) is None,
        },
{
    let ghost all = views(v@);
    let mut i: usize = 0;
    while i < v.len()
        invariant
            i <= v@.len(),
            all == views(v@),
            index_in(all.take(i as int), text@) is None,
        decreases v@.len() - i,
    {
        proof {
            assert(all.take(i + 1).drop_last() =~= all.take(i as int));
            assert(all.take(i + 1).last() == v@[i as int]@);
        }
        if same(v[i].as_str(), text) {
            proof {
                lemma_index_take(all, text@, i + 1);
            }
            return Some(i);
        }
        i += 1;
    }
    assert(all.take(i as int) =~= all);
    None
}

fn issue_to_result(
    issue: &Issue,
    rules: &Vec<String>,
    root: &FilePath,
    known: &Vec<ResolvedPath>,
) -> (r: Json)
    ensures
        tree(r) == result_of(issue@, views(rules@), root@, known@),
{
    let rule = issue.rule_key();
    let mut v: Vec<(String, Json)> = Vec::new();
    field(&mut v, "ruleId", text(rule.as_str()));
    field(&mut v, "level", text(issue.sarif_level()));
    field(&mut v, "message", one_field("text", Json::Text(message(issue))));
    let mut places: Vec<Json> = Vec::new();
    item(&mut places, physical_location(issue, root, known));
    assert(trees(places@) =~= seq![location_of(issue@, root@, known@)]);
    field(&mut v, "locations", Json::List(places));
    let ghost base = seq![
        ("ruleId"@, JsonView::Text(issue@.rule_key())),
        ("level"@, JsonView::Text(issue@.level())),
        ("message"@, single("text"@, JsonView::Text(result_message(issue@)))),
        ("locations"@, JsonView::List(seq![location_of(issue@, root@, known@)])),
    ];
    assert(fields(v@) =~= base);
    if let Some(i) = index_of(rules, rule.as_str()) {
        field(&mut v, "ruleIndex", Json::Number(i as u64));
    }
    let related = related_locations(issue, root, known);
    proof {
        lemma_trees_len(related@);
    }
    if related.len() > 0 {
        field(&mut v, "relatedLocations", Json::List(related));
    }
    Json::Object(v)
}

proof fn lemma_trees_len(v: Seq<Json>)
    ensures
        trees(v).len() == v.len(),
    decreases v.len(),
{
    if v.len() > 0 {
        lemma_trees_len(v.drop_last());
    }
}

fn rule_json(rule: &str, first: &Issue) -> (r: Json)
    ensures
        tree(r) == rule_entry(rule@, first@),
{
    let mut uri = README_BASE.to_owned();
    uri.append("#rule-");
    uri.append(rule);
    let mut v: Vec<(String, Json)> = Vec::new();
    field(&mut v, "id", text(rule));
    field(&mut v, "name", Json::Text(kebab_to_pascal(rule)));
    field(
        &mut v,
        "shortDescription",
        one_field("text", text(first.rule_short_description())),
    );
    field(&mut v, "helpUri", Json::Text(uri));
    field(&mut v, "defaultConfiguration", one_field("level", text(first.sarif_level())));
    assert(fields(v@) =~= seq![
        ("id"@, JsonView::Text(rule@)),
        ("name"@, JsonView::Text(pascal(rule@))),
        ("shortDescription"@, single("text"@, JsonView::Text(first@.description()))),
        ("helpUri"@, JsonView::Text(README_BASE@ + "#rule-"@ + rule@)),
        ("defaultConfiguration"@, single("level"@, JsonView::Text(first@.level()))),
    ]);
    Json::Object(v)
}

/// The entries of the rules that have findings.
fn build_rule_catalog(rules: &Vec<String>, issues: &Vec<Issue>) -> (r: Vec<Json>)
    requires
        views(rules@) == distinct_texts(issue_keys(issue_views(issues@))),
    ensures
        trees(r@) == rule_entries(views(rules@), issue_views(issues@)),
{
    let ghost all = views(rules@);
    let ghost found = issue_views(issues@);
    let ghost goal = rule_entries(all, found);
    let mut r: Vec<Json> = Vec::new();
    let mut i: usize = 0;
    assert(trees(r@) =~= goal.take(0));
    while i < rules.len()
        invariant
            i <= rules@.len(),
            all == views(rules@),
            found == issue_views(issues@),
            all == distinct_texts(issue_keys(found)),
            goal == rule_entries(all, found),
            trees(r@) == goal.take(i as int),
        decreases rules@.len() - i,
    {
        let own = with_rule(issues, rules[i].as_str());
        proof {
            assert(all[i as int] == rules@[i as int]@);
            lemma_rule_has_finding(found, all[i as int], i as int);
            assert(issue_views(own@.unref()).len() == own@.len());
            assert(issue_views(own@.unref())[0] == own@[0]@);
        }
        let ghost was = trees(r@);
        item(&mut r, rule_json(rules[i].as_str(), own[0]));
        assert(trees(r@) =~= was.push(goal[i as int]));
        i += 1;
        assert(trees(r@) =~= goal.take(i as int));
    }
    assert(trees(r@) =~= goal);
    r
}

proof fn lemma_rule_has_finding(issues: Seq<IssueView>, rule: Seq<char>, i: int)
    requires
        0 <= i < distinct_texts(issue_keys(issues)).len(),
        distinct_texts(issue_keys(issues))[i] == rule,
    ensures
        of_rule(issues, rule).len() > 0,
{
    let keys = issue_keys(issues);
    crate::order::distinct_texts_are_in_order(keys);
    assert(distinct_texts(keys).contains(rule));
    assert(keys.contains(rule));
    let k = choose|k: int| 0 <= k < keys.len() && keys[k] == rule;
    assert(issues[k].rule_key() == rule);
    assert(issues.contains(issues[k]));
    crate::report::markdown::findings_stand_under_their_rule(issues, issues[k], rule);
}

/// The document.
pub fn build(results: &AnalysisResults, root: &FilePath, known: &Vec<ResolvedPath>) -> (r: Json)
    ensures
        tree(r) == sarif_of(issue_views(results.issues@), root@, known@),
{
    let ghost found = issue_views(results.issues@);
    let rules = sort_distinct(&keys_of(&results.issues));
    let ghost names = views(rules@);
    let catalog = build_rule_catalog(&rules, &results.issues);
    let ghost goal = results_of(found, names, root@, known@);
    let mut found_results: Vec<Json> = Vec::new();
    let mut i: usize = 0;
    assert(trees(found_results@) =~= goal.take(0));
    while i < results.issues.len()
        invariant
            i <= results.issues@.len(),
            found == issue_views(results.issues@),
            names == views(rules@),
            goal == results_of(found, names, root@, known@),
            trees(found_results@) == goal.take(i as int),
        decreases results.issues@.len() - i,
    {
        let ghost was = trees(found_results@);
        item(&mut found_results, issue_to_result(&results.issues[i], &rules, root, known));
        assert(trees(found_results@) =~= was.push(goal[i as int]));
        i += 1;
        assert(trees(found_results@) =~= goal.take(i as int));
    }
    assert(trees(found_results@) =~= goal);
    let mut driver: Vec<(String, Json)> = Vec::new();
    field(&mut driver, "name", text(TOOL_NAME));
    field(&mut driver, "version", text(TOOL_VERSION));
    field(&mut driver, "informationUri", text(INFORMATION_URI));
    field(&mut driver, "rules", Json::List(catalog));
    let ghost driver_fields = seq![
        ("name"@, JsonView::Text(TOOL_NAME@)),
        ("version"@, JsonView::Text(TOOL_VERSION@)),
        ("informationUri"@, JsonView::Text(INFORMATION_URI@)),
        ("rules"@, JsonView::List(rule_entries(names, found))),
    ];
    assert(fields(driver@) =~= driver_fields);
    let mut run: Vec<(String, Json)> = Vec::new();
    field(&mut run, "tool", one_field("driver", Json::Object(driver)));
    field(&mut run, "results", Json::List(found_results));
    let ghost run_fields = seq![
        ("tool"@, single("driver"@, JsonView::Object(driver_fields))),
        ("results"@, JsonView::List(goal)),
    ];
    assert(fields(run@) =~= run_fields);
    let mut runs: Vec<Json> = Vec::new();
    item(&mut runs, Json::Object(run));
    assert(trees(runs@) =~= seq![JsonView::Object(run_fields)]);
    let mut v: Vec<(String, Json)> = Vec::new();
    field(&mut v, "$schema", text(SCHEMA));
    field(&mut v, "version", text(VERSION));
    field(&mut v, "runs", Json::List(runs));
    assert(fields(v@) =~= seq![
        ("$schema"@, JsonView::Text(SCHEMA@)),
        ("version"@, JsonView::Text(VERSION@)),
        ("runs"@, JsonView::List(seq![JsonView::Object(run_fields)])),
    ]);
    Json::Object(v)
}

/// The text of the document, or why it cannot be written.
pub fn render(results: &AnalysisResults, root: &FilePath, known: &Vec<ResolvedPath>) -> (r: Result<
    String,
    String,
>)
    ensures
        match r {
            Ok(s) => json_text(sarif_of(issue_views(results.issues@), root@, known@)) == Ok::<
                Seq<char>,
                Seq<char>,
            >(s@),
            Err(e) => json_text(sarif_of(issue_views(results.issues@), root@, known@)) == Err::<
                Seq<char>,
                Seq<char>,
            >(e@),
        },
{
    write_json(&build(results, root, known))
}

/// Both documents for other programs agree: a finding has the same rule, the same
/// path and the same lines in either.
pub proof fn documents_agree(
    issue: IssueView,
    rules: Seq<Seq<char>>,
    root: PathView,
    known: Seq<ResolvedPath>,
)
    ensures
        result_of(issue, rules, root, known) matches JsonView::Object(f) && f.len() >= 4 && f[0] == (
            "ruleId"@,
            JsonView::Text(diagnostic_of(issue, root, known).rule),
        ) && f[3] == (
            "locations"@,
            JsonView::List(
                seq![
                    place(
                        diagnostic_of(issue, root, known).path,
                        region(
                            match (
                                diagnostic_of(issue, root, known).start_line,
                                diagnostic_of(issue, root, known).end_line,
                            ) {
                                (Some(a), Some(b)) => Some((a, b)),
                                _ => None,
                            },
                        ),
                    ),
                ],
            ),
        ),
{
}

/// Every result points at the entry of its rule.
pub proof fn results_point_at_their_rule(issues: Seq<IssueView>, i: int)
    requires
        0 <= i < issues.len(),
    ensures
        index_in(distinct_texts(issue_keys(issues)), issues[i].rule_key()) matches Some(k)
            && 0 <= k < distinct_texts(issue_keys(issues)).len() && distinct_texts(
            issue_keys(issues),
        )[k] == issues[i].rule_key(),
{
    let keys = issue_keys(issues);
    crate::order::distinct_texts_are_in_order(keys);
    assert(keys[i] == issues[i].rule_key());
    assert(keys.contains(issues[i].rule_key()));
    lemma_index_in(distinct_texts(keys), issues[i].rule_key());
}

proof fn lemma_index_in(v: Seq<Seq<char>>, text: Seq<char>)
    requires
        v.contains(text),
    ensures
        index_in(v, text) matches Some(k) && 0 <= k < v.len() && v[k] == text,
    decreases v.len(),
{
    let front = v.drop_last();
    assert(v =~= front.push(v.last()));
    crate::types::lemma_contains_push(front, v.last(), text);
    if front.contains(text) {
        lemma_index_in(front, text);
    } else {
        lemma_not_in(front, text);
    }
}

proof fn lemma_not_in(v: Seq<Seq<char>>, text: Seq<char>)
    requires
        !v.contains(text),
    ensures
        index_in(v, text) is None,
    decreases v.len(),
{
    if v.len() > 0 {
        let front = v.drop_last();
        assert(v =~= front.push(v.last()));
        crate::types::lemma_contains_push(front, v.last(), text);
        lemma_not_in(front, text);
    }
}

/// A name with hyphens becomes one word, piece by piece, and a single word keeps its
/// letters but for a capital at its start.
pub proof fn names_run_together(a: Seq<char>, b: Seq<char>, word: Seq<char>)
    requires
        !word.contains('-'),
        word.len() > 0,
    ensures
        pascal(a + seq!['-'] + b) == pascal(a) + pascal(b),
        pascal(word).len() == word.len(),
        pascal(word).skip(1) == word.skip(1),
        'a' <= word[0] <= 'z' ==> pascal(word)[0] as u32 + 32 == word[0] as u32,
        !('a' <= word[0] <= 'z') ==> pascal(word) == word,
{
    crate::text::lemma_split_concat(a, b, '-');
    assert(a + seq!['-'] + b =~= a.push('-') + b);
    lemma_run_together_both(split_on(a, '-'), split_on(b, '-'));
    crate::text::lemma_split_single(word, '-');
    assert(seq![word].drop_last() =~= Seq::empty());
    reveal_with_fuel(run_together, 2);
    assert(pascal(word) =~= capitalized(word));
    assert(pascal(word).skip(1) =~= word.skip(1));
    if !('a' <= word[0] <= 'z') {
        assert(pascal(word) =~= word);
    }
}

proof fn lemma_run_together_both(a: Seq<Seq<char>>, b: Seq<Seq<char>>)
    ensures
        run_together(a + b) == run_together(a) + run_together(b),
    decreases b.len(),
{
    if b.len() == 0 {
        assert(a + b =~= a);
        assert(run_together(a) + run_together(b) =~= run_together(a));
    } else {
        lemma_run_together_both(a, b.drop_last());
        assert((a + b).drop_last() =~= a + b.drop_last());
        assert((a + b).last() == b.last());
        assert(run_together(a + b) =~= run_together(a) + run_together(b));
    }
}

/// A clone shows all its places and a cycle all its files: the first as where it is,
/// the others, in their order, as where else it is.
pub proof fn every_place_is_shown(
    issue: IssueView,
    root: PathView,
    known: Seq<ResolvedPath>,
    k: int,
)
    ensures
        issue matches IssueView::Duplicate { occurrences, .. } ==> (0 <= k < occurrences.len() ==> {
            let o = occurrences[k];
            let at = place(
                relative_text(o.path, root, known),
                region(Some((o.start_line, o.end_line))),
            );
            if k == 0 {
                location_of(issue, root, known) == at
            } else {
                related_of(issue, root, known)[k - 1] == at
            }
        }) && (occurrences.len() > 0 ==> related_of(issue, root, known).len() == occurrences.len()
            - 1),
        issue matches IssueView::CircularDependency { cycle } ==> (0 < k < cycle.len()
            ==> related_of(issue, root, known)[k - 1] == file_place(
            relative_text(cycle[k], root, known),
        )) && (cycle.len() > 0 ==> related_of(issue, root, known).len() == cycle.len() - 1
            && location_of(issue, root, known) == place(
            relative_text(cycle[0], root, known),
            region(None),
        )),
{
}

/// Every finding has a result, in the order of the findings, and as grave as it is.
pub proof fn every_finding_has_a_result(
    issues: Seq<IssueView>,
    rules: Seq<Seq<char>>,
    root: PathView,
    known: Seq<ResolvedPath>,
    i: int,
)
    requires
        0 <= i < issues.len(),
    ensures
        results_of(issues, rules, root, known).len() == issues.len(),
        results_of(issues, rules, root, known)[i] matches JsonView::Object(f) && f.contains(
            ("ruleId"@, JsonView::Text(issues[i].rule_key())),
        ) && f.contains(("level"@, JsonView::Text(issues[i].level()))) && f.contains(
            ("locations"@, JsonView::List(seq![location_of(issues[i], root, known)])),
        ) && (related_of(issues[i], root, known).len() > 0 ==> f.contains(
            ("relatedLocations"@, JsonView::List(related_of(issues[i], root, known))),
        )),
{
    let r = result_of(issues[i], rules, root, known);
    if let JsonView::Object(f) = r {
        assert(f[0] == ("ruleId"@, JsonView::Text(issues[i].rule_key())));
        assert(f[1] == ("level"@, JsonView::Text(issues[i].level())));
        assert(f[3] == (
            "locations"@,
            JsonView::List(seq![location_of(issues[i], root, known)]),
        ));
        if related_of(issues[i], root, known).len() > 0 {
            assert(f[f.len() - 1] == (
                "relatedLocations"@,
                JsonView::List(related_of(issues[i], root, known)),
            ));
        }
    }
}

} // verus!
