//! From the outcomes for all candidates to a list of moves, and the test
//! that no two moves end at the same place.

use crate::match_engine::{
    classify, classify_spec, CompiledMatcher, MatcherView, OutcomeView, ReplacementOutcome,
};
use crate::path_utils::{
    is_normal, join_path, join_spec, lemma_join_injective, lemma_normalize_idempotent,
    lemma_normalized_splits, normalize_path, normalize_spec, separator, split_path, split_spec,
};
use vstd::prelude::*;

verus! {

/// One planned move: the path a file has, and the path it is to get.
#[derive(Debug, PartialEq, Eq)]
pub struct MovePair {
    pub source: String,
    pub destination: String,
}

/// A `MovePair` with both paths as sequences of characters.
pub struct MovePairView {
    pub source: Seq<char>,
    pub destination: Seq<char>,
}

impl View for MovePair {
    type V = MovePairView;

    open spec fn view(&self) -> MovePairView {
        MovePairView { source: self.source@, destination: self.destination@ }
    }
}

impl Clone for MovePair {
    fn clone(&self) -> (copy: MovePair)
        ensures
            copy@ == self@,
    {
        MovePair { source: self.source.clone(), destination: self.destination.clone() }
    }
}

impl DeepView for MovePair {
    type V = MovePairView;

    open spec fn deep_view(&self) -> MovePairView {
        self@
    }
}

/// The move that one candidate gives rise to, if any. A candidate without a
/// file name gives none, and so does one whose name is not replaced. The
/// file stays in its directory: only the name changes.
pub open spec fn plan_entry(
    candidate: Seq<char>,
    matcher: Option<MatcherView>,
    template: Seq<char>,
    global: bool,
) -> Option<MovePairView> {
    match split_spec(candidate) {
        None => None,
        Some((parent, name)) => match classify_spec(name, matcher, template, global) {
            OutcomeView::Replaced(new_name) => Some(
                MovePairView {
                    source: join_spec(parent, name),
                    destination: join_spec(parent, new_name),
                },
            ),
            _ => None,
        },
    }
}

/// The moves for a list of candidates: the moves of the single candidates,
/// in the order of the candidates.
pub open spec fn plan_spec(
    candidates: Seq<Seq<char>>,
    matcher: Option<MatcherView>,
    template: Seq<char>,
    global: bool,
) -> Seq<MovePairView>
    decreases candidates.len(),
{
    if candidates.len() == 0 {
        Seq::<MovePairView>::empty()
    } else {
        let before = plan_spec(candidates.drop_last(), matcher, template, global);
        match plan_entry(candidates.last(), matcher, template, global) {
            Some(pair) => before.push(pair),
            None => before,
        }
    }
}

/// The move for one candidate path, if its file name is replaced.
pub fn plan_one(
    candidate: &str,
    matcher: &Option<CompiledMatcher>,
    template: &str,
    global: bool,
) -> (entry: Option<MovePair>)
    ensures
        entry.deep_view() == plan_entry(candidate@, matcher.deep_view(), template@, global),
{
    match split_path(candidate) {
        None => None,
        Some((parent, name)) => match classify(name.as_str(), matcher, template, global) {
            ReplacementOutcome::Replaced(new_name) => {
                let source = join_path(parent.as_str(), name.as_str());
                let destination = join_path(parent.as_str(), new_name.as_str());
                Some(MovePair { source, destination })
            },
            _ => None,
        },
    }
}

/// Builds the list of moves for the candidates, in their order. Candidates
/// without a file name are passed over in silence, and so are all whose name
/// the replacement does not change.
pub fn plan(
    candidates: &Vec<String>,
    matcher: &Option<CompiledMatcher>,
    template: &str,
    global: bool,
) -> (pairs: Vec<MovePair>)
    ensures
        pairs.deep_view() == plan_spec(
            candidates.deep_view(),
            matcher.deep_view(),
            template@,
            global,
        ),
        every_pair_moves(pairs.deep_view()),
        all_normal(candidates.deep_view()) ==> sources_among(
            pairs.deep_view(),
            candidates.deep_view(),
        ),
{
    let mut pairs: Vec<MovePair> = Vec::new();
    let mut i: usize = 0;
    assert(candidates.deep_view().take(0) == Seq::<Seq<char>>::empty());
    while i < candidates.len()
        invariant
            i <= candidates.len(),
            pairs.deep_view() == plan_spec(
                candidates.deep_view().take(i as int),
                matcher.deep_view(),
                template@,
                global,
            ),
        decreases candidates.len() - i,
    {
        let ghost before = pairs.deep_view();
        let entry = plan_one(candidates[i].as_str(), matcher, template, global);
        proof {
            let all = candidates.deep_view();
            assert(all.take(i + 1).drop_last() == all.take(i as int));
            assert(all.take(i + 1).last() == candidates[i as int]@);
        }
        match entry {
            Some(pair) => {
                pairs.push(pair);
                assert(pairs.deep_view() == before.push(pair@));
            },
            None => {},
        }
        i += 1;
    }
    proof {
        assert(candidates.deep_view().take(candidates@.len() as int) == candidates.deep_view());
        lemma_plan_moves(candidates.deep_view(), matcher.deep_view(), template@, global);
        if all_normal(candidates.deep_view()) {
            lemma_plan_sources(candidates.deep_view(), matcher.deep_view(), template@, global);
        }
    }
    pairs
}

/// A move never ends where it begins: a name that the replacement gives
/// back unchanged is no move at all.
pub proof fn lemma_entry_moves(
    candidate: Seq<char>,
    matcher: Option<MatcherView>,
    template: Seq<char>,
    global: bool,
)
    ensures
        plan_entry(candidate, matcher, template, global) matches Some(pair) ==> pair.source
            != pair.destination,
{
    if let Some((parent, name)) = split_spec(candidate) {
        if let OutcomeView::Replaced(new_name) = classify_spec(name, matcher, template, global) {
            lemma_join_injective(parent, name, new_name);
        }
    }
}

/// Whether every pair of a plan ends somewhere else than it begins.
pub open spec fn every_pair_moves(plan: Seq<MovePairView>) -> bool {
    forall|k: int| 0 <= k < plan.len() ==> (#[trigger] plan[k]).source != plan[k].destination
}

/// No pair of a plan has the same path as source and as destination.
pub proof fn lemma_plan_moves(
    candidates: Seq<Seq<char>>,
    matcher: Option<MatcherView>,
    template: Seq<char>,
    global: bool,
)
    ensures
        every_pair_moves(plan_spec(candidates, matcher, template, global)),
    decreases candidates.len(),
{
    if candidates.len() > 0 {
        let before = plan_spec(candidates.drop_last(), matcher, template, global);
        let all = plan_spec(candidates, matcher, template, global);
        lemma_plan_moves(candidates.drop_last(), matcher, template, global);
        lemma_entry_moves(candidates.last(), matcher, template, global);
        assert forall|k: int| 0 <= k < all.len() implies (#[trigger] all[k]).source
            != all[k].destination by {
            if k < before.len() {
                assert(all[k] == before[k]);
            }
        }
    }
}

/// A candidate in normal form that is planned to move is itself the source
/// of its move: planning computes the destination only.
pub proof fn lemma_entry_source(
    candidate: Seq<char>,
    matcher: Option<MatcherView>,
    template: Seq<char>,
    global: bool,
)
    requires
        is_normal(candidate),
    ensures
        plan_entry(candidate, matcher, template, global) matches Some(pair) ==> pair.source
            == candidate,
{
    lemma_normalized_splits(candidate, Seq::<char>::empty());
}

/// Whether every path of a list is in normal form.
pub open spec fn all_normal(paths: Seq<Seq<char>>) -> bool {
    forall|i: int| 0 <= i < paths.len() ==> is_normal(#[trigger] paths[i])
}

/// Each path of `files` in absolute, normal form, for the working directory
/// `cwd`.
pub open spec fn normalized_files(files: Seq<Seq<char>>, cwd: Seq<char>) -> Seq<Seq<char>> {
    files.map_values(|path: Seq<char>| normalize_spec(path, cwd))
}

/// The candidates of a session: paths in absolute, normal form, in the order
/// in which they were given. The list does not change once it is made.
pub struct Candidates {
    paths: Vec<String>,
}

impl View for Candidates {
    type V = Seq<Seq<char>>;

    closed spec fn view(&self) -> Seq<Seq<char>> {
        self.paths.deep_view()
    }
}

impl Candidates {
    #[verifier::type_invariant]
    closed spec fn well_formed(&self) -> bool {
        all_normal(self.paths.deep_view())
    }

    /// No candidates.
    pub fn none() -> (candidates: Candidates)
        ensures
            candidates@ == Seq::<Seq<char>>::empty(),
    {
        let candidates = Candidates { paths: Vec::new() };
        assert(candidates.paths.deep_view() == Seq::<Seq<char>>::empty());
        candidates
    }

    /// Each path of `files` brought into absolute, normal form, in the
    /// order of `files`; a relative path is resolved against `cwd`.
    pub fn normalized(files: Vec<String>, cwd: &str) -> (candidates: Candidates)
        ensures
            candidates@ == normalized_files(files.deep_view(), cwd@),
            all_normal(candidates@),
    {
        let mut normal: Vec<String> = Vec::new();
        let mut i: usize = 0;
        let ghost wanted = normalized_files(files.deep_view(), cwd@);
        while i < files.len()
            invariant
                i <= files.len(),
                wanted == normalized_files(files.deep_view(), cwd@),
                normal.deep_view() == wanted.take(i as int),
            decreases files.len() - i,
        {
            let path = normalize_path(files[i].as_str(), cwd);
            let ghost before = normal.deep_view();
            normal.push(path);
            assert(normal.deep_view() == before.push(path@));
            i += 1;
        }
        proof {
            assert(wanted.take(files@.len() as int) == wanted);
            assert forall|k: int| 0 <= k < wanted.len() implies is_normal(
                #[trigger] wanted[k],
            ) by {
                lemma_normalize_idempotent(files.deep_view()[k], cwd@, Seq::<char>::empty());
            }
        }
        Candidates { paths: normal }
    }

    /// The paths, every one of them in normal form.
    pub fn paths(&self) -> (paths: &Vec<String>)
        ensures
            paths.deep_view() == self@,
            all_normal(self@),
    {
        proof {
            use_type_invariant(self);
        }
        &self.paths
    }
}

/// Whether the source of every pair of a plan is one of the candidates.
pub open spec fn sources_among(plan: Seq<MovePairView>, candidates: Seq<Seq<char>>) -> bool {
    forall|k: int| 0 <= k < plan.len() ==> candidates.contains((#[trigger] plan[k]).source)
}

/// The sources of a plan for candidates in normal form are among the
/// candidates.
pub proof fn lemma_plan_sources(
    candidates: Seq<Seq<char>>,
    matcher: Option<MatcherView>,
    template: Seq<char>,
    global: bool,
)
    requires
        all_normal(candidates),
    ensures
        sources_among(plan_spec(candidates, matcher, template, global), candidates),
    decreases candidates.len(),
{
    if candidates.len() > 0 {
        let shorter = candidates.drop_last();
        let before = plan_spec(shorter, matcher, template, global);
        let all = plan_spec(candidates, matcher, template, global);
        assert forall|i: int| 0 <= i < shorter.len() implies is_normal(#[trigger] shorter[i]) by {
            assert(shorter[i] == candidates[i]);
        }
        lemma_plan_sources(shorter, matcher, template, global);
        assert(is_normal(candidates.last()));
        lemma_entry_source(candidates.last(), matcher, template, global);
        assert forall|k: int| 0 <= k < all.len() implies candidates.contains(
            (#[trigger] all[k]).source,
        ) by {
            if k < before.len() {
                assert(all[k] == before[k]);
                assert(shorter.contains(before[k].source));
                let i = choose|i: int| 0 <= i < shorter.len() && shorter[i] == before[k].source;
                assert(candidates[i] == before[k].source);
            } else {
                assert(candidates[candidates.len() - 1] == all[k].source);
            }
        }
    }
}

/// The plan for two lists of candidates, one after the other, is the plan
/// for the first followed by the plan for the second: the order of the
/// candidates is the order of the moves.
pub proof fn lemma_plan_concat(
    first: Seq<Seq<char>>,
    second: Seq<Seq<char>>,
    matcher: Option<MatcherView>,
    template: Seq<char>,
    global: bool,
)
    ensures
        plan_spec(first + second, matcher, template, global) == plan_spec(
            first,
            matcher,
            template,
            global,
        ) + plan_spec(second, matcher, template, global),
    decreases second.len(),
{
    if second.len() == 0 {
        assert(first + second == first);
    } else {
        assert((first + second).drop_last() == first + second.drop_last());
        assert((first + second).last() == second.last());
        lemma_plan_concat(first, second.drop_last(), matcher, template, global);
    }
}

/// A plan holds no more moves than there are candidates.
pub proof fn lemma_plan_length(
    candidates: Seq<Seq<char>>,
    matcher: Option<MatcherView>,
    template: Seq<char>,
    global: bool,
)
    ensures
        plan_spec(candidates, matcher, template, global).len() <= candidates.len(),
    decreases candidates.len(),
{
    if candidates.len() > 0 {
        lemma_plan_length(candidates.drop_last(), matcher, template, global);
    }
}

/// Without a matcher, or with a matcher for the empty pattern, nothing is
/// planned, whatever the candidates.
pub proof fn lemma_plan_empty(
    candidates: Seq<Seq<char>>,
    matcher: Option<MatcherView>,
    template: Seq<char>,
    global: bool,
)
    requires
        matcher matches Some(m) ==> m.pattern.len() == 0,
    ensures
        plan_spec(candidates, matcher, template, global).len() == 0,
    decreases candidates.len(),
{
    if candidates.len() > 0 {
        lemma_plan_empty(candidates.drop_last(), matcher, template, global);
    }
}

/// What the user sees of one candidate while editing.
#[derive(Debug, PartialEq, Eq)]
pub struct PreviewRow {
    /// The directory of the file, with a separator behind it.
    pub directory: String,
    /// The name of the file.
    pub name: String,
    /// What the replacement does to the name.
    pub outcome: ReplacementOutcome,
}

/// A `PreviewRow` as plain values.
pub struct PreviewRowView {
    pub directory: Seq<char>,
    pub name: Seq<char>,
    pub outcome: OutcomeView,
}

impl View for PreviewRow {
    type V = PreviewRowView;

    open spec fn view(&self) -> PreviewRowView {
        PreviewRowView { directory: self.directory@, name: self.name@, outcome: self.outcome@ }
    }
}

impl DeepView for PreviewRow {
    type V = PreviewRowView;

    open spec fn deep_view(&self) -> PreviewRowView {
        self@
    }
}

/// The row for one candidate: none if it has no file name.
pub open spec fn preview_entry(
    candidate: Seq<char>,
    matcher: Option<MatcherView>,
    template: Seq<char>,
    global: bool,
) -> Option<PreviewRowView> {
    match split_spec(candidate) {
        None => None,
        Some((parent, name)) => Some(
            PreviewRowView {
                directory: parent + seq![separator()],
                name,
                outcome: classify_spec(name, matcher, template, global),
            },
        ),
    }
}

/// The rows for a list of candidates, in the order of the candidates.
pub open spec fn preview_spec(
    candidates: Seq<Seq<char>>,
    matcher: Option<MatcherView>,
    template: Seq<char>,
    global: bool,
) -> Seq<PreviewRowView>
    decreases candidates.len(),
{
    if candidates.len() == 0 {
        Seq::<PreviewRowView>::empty()
    } else {
        let before = preview_spec(candidates.drop_last(), matcher, template, global);
        match preview_entry(candidates.last(), matcher, template, global) {
            Some(row) => before.push(row),
            None => before,
        }
    }
}

/// The row for one candidate path, if it has a file name.
pub fn preview_one(
    candidate: &str,
    matcher: &Option<CompiledMatcher>,
    template: &str,
    global: bool,
) -> (entry: Option<PreviewRow>)
    ensures
        entry.deep_view() == preview_entry(candidate@, matcher.deep_view(), template@, global),
{
    match split_path(candidate) {
        None => None,
        Some((parent, name)) => {
            let outcome = classify(name.as_str(), matcher, template, global);
            let ghost parent_text = parent@;
            let mut directory = parent;
            directory.push('/');
            assert(directory@ =~= parent_text + seq![separator()]);
            Some(PreviewRow { directory, name, outcome })
        },
    }
}

/// Classifies the file name of every candidate for display, in the order
/// of the candidates. Candidates without a file name get no row.
pub fn preview(
    candidates: &Vec<String>,
    matcher: &Option<CompiledMatcher>,
    template: &str,
    global: bool,
) -> (rows: Vec<PreviewRow>)
    ensures
        rows.deep_view() == preview_spec(
            candidates.deep_view(),
            matcher.deep_view(),
            template@,
            global,
        ),
{
    let mut rows: Vec<PreviewRow> = Vec::new();
    let mut i: usize = 0;
    assert(candidates.deep_view().take(0) == Seq::<Seq<char>>::empty());
    while i < candidates.len()
        invariant
            i <= candidates.len(),
            rows.deep_view() == preview_spec(
                candidates.deep_view().take(i as int),
                matcher.deep_view(),
                template@,
                global,
            ),
        decreases candidates.len() - i,
    {
        let ghost before = rows.deep_view();
        let entry = preview_one(candidates[i].as_str(), matcher, template, global);
        proof {
            let all = candidates.deep_view();
            assert(all.take(i + 1).drop_last() == all.take(i as int));
            assert(all.take(i + 1).last() == candidates[i as int]@);
        }
        match entry {
            Some(row) => {
                rows.push(row);
                assert(rows.deep_view() == before.push(row@));
            },
            None => {},
        }
        i += 1;
    }
    assert(candidates.deep_view().take(candidates@.len() as int) == candidates.deep_view());
    rows
}

/// A candidate is planned to move exactly when its row shows a new name,
/// and then it moves to that name in its own directory.
pub proof fn lemma_plan_follows_preview(
    candidate: Seq<char>,
    matcher: Option<MatcherView>,
    template: Seq<char>,
    global: bool,
)
    ensures
        plan_entry(candidate, matcher, template, global) is Some <==> {
            &&& preview_entry(candidate, matcher, template, global) matches Some(row)
            &&& row.outcome is Replaced
        },
        plan_entry(candidate, matcher, template, global) matches Some(pair) ==> {
            &&& split_spec(candidate) matches Some((parent, name))
            &&& preview_entry(candidate, matcher, template, global) matches Some(row)
            &&& row.outcome matches OutcomeView::Replaced(new_name)
            &&& pair.source == join_spec(parent, name)
            &&& pair.destination == join_spec(parent, new_name)
        },
{
}

/// Whether `(first, second)` is the first place where `items` repeats an
/// item: `second` is the least index whose item occurred before, and `first`
/// is where it occurred first.
pub open spec fn is_first_duplicate(items: Seq<Seq<char>>, first: int, second: int) -> bool {
    &&& 0 <= first < second < items.len()
    &&& items[first] == items[second]
    &&& items.take(second).no_duplicates()
    &&& forall|k: int| 0 <= k < first ==> items[k] != items[second]
}

/// Looks for the first item that occurred before, and says where it
/// occurred first and where again. `None` means that no item occurs twice.
pub fn first_duplicate(items: &Vec<String>) -> (found: Option<(usize, usize)>)
    ensures
        found is None <==> items.deep_view().no_duplicates(),
        found matches Some((first, second)) ==> is_first_duplicate(
            items.deep_view(),
            first as int,
            second as int,
        ),
{
    let ghost all = items.deep_view();
    let mut second: usize = 0;
    while second < items.len()
        invariant
            second <= items.len(),
            all == items.deep_view(),
            all.take(second as int).no_duplicates(),
        decreases items.len() - second,
    {
        let mut first: usize = 0;
        while first < second
            invariant
                first <= second < items.len(),
                all == items.deep_view(),
                all.take(second as int).no_duplicates(),
                forall|k: int| 0 <= k < first ==> all[k] != all[second as int],
            decreases second - first,
        {
            if items[first] == items[second] {
                assert(all[first as int] == all[second as int]);
                assert(!all.no_duplicates());
                return Some((first, second));
            }
            first += 1;
        }
        proof {
            let longer = all.take(second + 1);
            assert forall|i: int, j: int|
                0 <= i < longer.len() && 0 <= j < longer.len() && i != j implies longer[i]
                != longer[j] by {
                let shorter = all.take(second as int);
                if i < second && j < second {
                    assert(shorter[i] != shorter[j]);
                }
            }
        }
        second += 1;
    }
    assert(all.take(items@.len() as int) == all);
    None
}

/// Whether all items are different from one another.
pub fn unique(items: &Vec<String>) -> (distinct: bool)
    ensures
        distinct == items.deep_view().no_duplicates(),
{
    first_duplicate(items).is_none()
}

/// The destinations of a plan, in its order.
pub open spec fn destinations(plan: Seq<MovePairView>) -> Seq<Seq<char>> {
    plan.map_values(|pair: MovePairView| pair.destination)
}

/// Whether no two pairs of a plan have the same destination.
pub open spec fn destinations_distinct(plan: Seq<MovePairView>) -> bool {
    forall|i: int, j: int|
        0 <= i < plan.len() && 0 <= j < plan.len() && i != j ==> (#[trigger] plan[i]).destination
            != (#[trigger] plan[j]).destination
}

/// Why a plan is refused: two of its moves end at the same path.
#[derive(Debug, PartialEq, Eq)]
pub struct CollisionError {
    /// The place in the plan of the earlier of the two moves.
    pub first: usize,
    /// The place in the plan of the later of the two moves.
    pub second: usize,
    /// The path at which both end.
    pub destination: String,
}

impl Clone for CollisionError {
    fn clone(&self) -> (copy: CollisionError)
        ensures
            copy.first == self.first,
            copy.second == self.second,
            copy.destination@ == self.destination@,
    {
        CollisionError {
            first: self.first,
            second: self.second,
            destination: self.destination.clone(),
        }
    }
}

impl CollisionError {
    /// What the user is told.
    pub fn message(&self) -> (text: String)
        ensures
            text@ == "destination files are not unique. Aborting"@,
    {
        "destination files are not unique. Aborting".to_owned()
    }
}

/// Accepts a plan only if all its destinations differ from one another. One
/// destination that occurs twice refuses the whole plan, so that no file is
/// renamed over another. The error names the first destination that repeats
/// an earlier one.
pub fn validate(plan: &Vec<MovePair>) -> (r: Result<(), CollisionError>)
    ensures
        r is Ok <==> destinations_distinct(plan.deep_view()),
        r matches Err(e) ==> {
            &&& is_first_duplicate(
                destinations(plan.deep_view()),
                e.first as int,
                e.second as int,
            )
            &&& e.destination@ == plan[e.second as int].destination@
        },
{
    let ghost wanted = destinations(plan.deep_view());
    let mut targets: Vec<String> = Vec::new();
    let mut i: usize = 0;
    while i < plan.len()
        invariant
            i <= plan.len(),
            wanted == destinations(plan.deep_view()),
            targets.deep_view() == wanted.take(i as int),
        decreases plan.len() - i,
    {
        targets.push(plan[i].destination.clone());
        assert(targets.deep_view() == wanted.take(i as int).push(plan[i as int].destination@));
        i += 1;
    }
    assert(wanted.take(plan@.len() as int) == wanted);
    proof {
        lemma_destinations_distinct(plan.deep_view());
    }
    match first_duplicate(&targets) {
        None => Ok(()),
        Some((first, second)) => Err(
            CollisionError { first, second, destination: plan[second].destination.clone() },
        ),
    }
}

/// The destinations of a plan differ from one another exactly when the list
/// of them holds nothing twice.
pub proof fn lemma_destinations_distinct(plan: Seq<MovePairView>)
    ensures
        destinations_distinct(plan) <==> destinations(plan).no_duplicates(),
{
    let targets = destinations(plan);
    if destinations_distinct(plan) {
        assert forall|i: int, j: int|
            0 <= i < targets.len() && 0 <= j < targets.len() && i != j implies targets[i]
            != targets[j] by {
            assert(plan[i].destination != plan[j].destination);
        }
    }
    if targets.no_duplicates() {
        assert forall|i: int, j: int|
            0 <= i < plan.len() && 0 <= j < plan.len() && i != j implies (
        #[trigger] plan[i]).destination != (#[trigger] plan[j]).destination by {
            assert(targets[i] != targets[j]);
        }
    }
}

/// The shell command that stands for one move in a dry run.
pub open spec fn move_command_text(pair: MovePairView) -> Seq<char> {
    seq!['m', 'v', ' '] + pair.source + seq![' '] + pair.destination
}

/// Writes one move as a shell command: `mv`, the source and the
/// destination, with one space between them.
pub fn move_command(pair: &MovePair) -> (command: String)
    ensures
        command@ == move_command_text(pair@),
{
    let mut command = String::new();
    command.push('m');
    command.push('v');
    command.push(' ');
    assert(command@ == seq!['m', 'v', ' ']);
    command.append(pair.source.as_str());
    command.push(' ');
    command.append(pair.destination.as_str());
    command
}

} // verus!
