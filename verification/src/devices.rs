//! What can be chosen as an input or an output, and how it is shown.

use crate::config::{Assignment, AssignmentModel, Config, ConfigModel};
use crate::{channels, config, lists, text};
use vstd::prelude::*;
use vstd::string::*;

verus! {

/// A capture source of the audio server.
#[derive(Debug, PartialEq, Eq)]
pub struct SourceInfo {
    pub name: String,
    pub description: String,
    /// Whether the source listens to what another device plays.
    pub is_monitor: bool,
}

/// What a [`SourceInfo`] says.
pub struct SourceModel {
    pub name: Seq<char>,
    pub description: Seq<char>,
    pub is_monitor: bool,
}

impl View for SourceInfo {
    type V = SourceModel;

    open spec fn view(&self) -> SourceModel {
        SourceModel {
            name: self.name@,
            description: self.description@,
            is_monitor: self.is_monitor,
        }
    }
}

/// A playback sink of the audio server.
#[derive(Debug, PartialEq, Eq)]
pub struct SinkInfo {
    pub name: String,
    pub description: String,
}

/// What a [`SinkInfo`] says.
pub struct SinkModel {
    pub name: Seq<char>,
    pub description: Seq<char>,
}

impl View for SinkInfo {
    type V = SinkModel;

    open spec fn view(&self) -> SinkModel {
        SinkModel { name: self.name@, description: self.description@ }
    }
}

/// One input that can be chosen for a channel.
#[derive(Debug, PartialEq, Eq)]
pub struct InputItem {
    pub label: String,
    pub assignment: Option<Assignment>,
}

/// What an [`InputItem`] says.
pub struct InputModel {
    pub label: Seq<char>,
    pub assignment: Option<AssignmentModel>,
}

impl View for InputItem {
    type V = InputModel;

    open spec fn view(&self) -> InputModel {
        InputModel { label: self.label@, assignment: config::assigned(self.assignment) }
    }
}

/// One output that can be chosen for the monitor mix; no name stands for the
/// default of the system.
#[derive(Debug, PartialEq, Eq)]
pub struct SinkItem {
    pub label: String,
    pub name: Option<String>,
}

/// What a [`SinkItem`] says.
pub struct SinkChoice {
    pub label: Seq<char>,
    pub name: Option<Seq<char>>,
}

impl View for SinkItem {
    type V = SinkChoice;

    open spec fn view(&self) -> SinkChoice {
        SinkChoice { label: self.label@, name: config::optional_text(self.name) }
    }
}

// ---- Choices ----------------------------------------------------------------------

/// What some sources say.
pub open spec fn source_models(sources: Seq<SourceInfo>) -> Seq<SourceModel> {
    sources.map_values(|s: SourceInfo| s@)
}

/// What some items say.
pub open spec fn input_models(items: Seq<InputItem>) -> Seq<InputModel> {
    items.map_values(|i: InputItem| i@)
}

/// What some items say.
pub open spec fn sink_choices(items: Seq<SinkItem>) -> Seq<SinkChoice> {
    items.map_values(|i: SinkItem| i@)
}

/// A source as an input.
pub open spec fn source_input(s: SourceModel) -> InputModel {
    InputModel {
        label: s.description,
        assignment: Some(AssignmentModel::Source { name: s.name }),
    }
}

/// An application as an input.
pub open spec fn app_input(name: Seq<char>) -> InputModel {
    InputModel {
        label: name + " — Application"@,
        assignment: Some(AssignmentModel::App { name }),
    }
}

/// The sources that listen to other devices, or those that do not, as inputs.
pub open spec fn source_inputs(sources: Seq<SourceModel>, monitors: bool) -> Seq<InputModel> {
    sources.filter(|s: SourceModel| s.is_monitor == monitors).map_values(
        |s: SourceModel| source_input(s),
    )
}

/// Applications as inputs.
pub open spec fn app_inputs(apps: Seq<Seq<char>>) -> Seq<InputModel> {
    apps.map_values(|a: Seq<char>| app_input(a))
}

/// No input and the virtual device, which can always be chosen.
pub open spec fn fixed_inputs() -> Seq<InputModel> {
    seq![
        InputModel { label: "No Input"@, assignment: None },
        InputModel { label: "Virtual Device"@, assignment: Some(AssignmentModel::Virtual) },
    ]
}

/// The inputs that can be chosen: none, a virtual device, capture devices,
/// applications, and what other devices play.
pub open spec fn inputs(sources: Seq<SourceModel>, apps: Seq<Seq<char>>) -> Seq<InputModel> {
    fixed_inputs() + source_inputs(sources, false) + app_inputs(apps) + source_inputs(sources, true)
}

fn push_sources(items: &mut Vec<InputItem>, sources: &Vec<SourceInfo>, monitors: bool)
    ensures
        input_models(final(items)@) == input_models(old(items)@) + source_inputs(
            source_models(sources@),
            monitors,
        ),
{
    let ghost start = input_models(items@);
    let ghost all = source_models(sources@);
    let ghost keep = |s: SourceModel| s.is_monitor == monitors;
    let ghost entry = |s: SourceModel| source_input(s);
    proof {
        lists::lemma_pick_none(all, keep, entry);
        assert(start =~= start + all.take(0).filter(keep).map_values(entry));
    }
    let mut i: usize = 0;
    while i < sources.len()
        invariant
            i <= sources@.len(),
            all == source_models(sources@),
            keep == (|s: SourceModel| s.is_monitor == monitors),
            entry == (|s: SourceModel| source_input(s)),
            input_models(items@) == start + all.take(i as int).filter(keep).map_values(entry),
        decreases sources@.len() - i,
    {
        let ghost had = items@;
        proof {
            lists::lemma_pick_step(all, i as int, keep, entry);
            assert(all[i as int] == sources@[i as int]@);
        }
        if sources[i].is_monitor == monitors {
            let item = InputItem {
                label: sources[i].description.clone(),
                assignment: Some(Assignment::Source { name: sources[i].name.clone() }),
            };
            items.push(item);
            proof {
                assert(input_models(items@) =~= input_models(had).push(
                    source_input(all[i as int]),
                ));
                assert(input_models(items@) =~= start + all.take(i + 1).filter(keep).map_values(
                    entry,
                ));
            }
        }
        i += 1;
    }
    assert(all.take(i as int) =~= all);
}

/// The inputs that can be chosen.
pub fn input_items(sources: &Vec<SourceInfo>, apps: &Vec<String>) -> (out: Vec<InputItem>)
    ensures
        input_models(out@) == inputs(source_models(sources@), text::texts(apps@)),
{
    let mut items: Vec<InputItem> = Vec::new();
    items.push(InputItem { label: "No Input".to_owned(), assignment: None });
    items.push(
        InputItem { label: "Virtual Device".to_owned(), assignment: Some(Assignment::Virtual) },
    );
    assert(input_models(items@) =~= fixed_inputs());
    push_sources(&mut items, sources, false);
    let ghost captures = input_models(items@);
    let ghost all = text::texts(apps@);
    let mut i: usize = 0;
    assert(captures =~= captures + app_inputs(all.take(0)));
    while i < apps.len()
        invariant
            i <= apps@.len(),
            all == text::texts(apps@),
            input_models(items@) == captures + app_inputs(all.take(i as int)),
        decreases apps@.len() - i,
    {
        let ghost had = items@;
        let mut label = apps[i].clone();
        label.append(" — Application");
        items.push(
            InputItem { label, assignment: Some(Assignment::App { name: apps[i].clone() }) },
        );
        proof {
            assert(all[i as int] == apps@[i as int]@);
            assert(app_inputs(all.take(i + 1)) =~= app_inputs(all.take(i as int)).push(
                app_input(all[i as int]),
            ));
            assert(input_models(items@) =~= input_models(had).push(app_input(all[i as int])));
            assert(input_models(items@) =~= captures + app_inputs(all.take(i + 1)));
        }
        i += 1;
    }
    assert(all.take(i as int) =~= all);
    push_sources(&mut items, sources, true);
    items
}

/// The outputs that can be chosen: the default of the system, and the sinks.
pub open spec fn outputs(sinks: Seq<SinkModel>) -> Seq<SinkChoice> {
    seq![SinkChoice { label: "System Default"@, name: None }] + sinks.map_values(
        |s: SinkModel| SinkChoice { label: s.description, name: Some(s.name) },
    )
}

/// What some sinks say.
pub open spec fn sink_models(sinks: Seq<SinkInfo>) -> Seq<SinkModel> {
    sinks.map_values(|s: SinkInfo| s@)
}

/// The outputs that can be chosen.
pub fn sink_items(sinks: &Vec<SinkInfo>) -> (out: Vec<SinkItem>)
    ensures
        sink_choices(out@) == outputs(sink_models(sinks@)),
{
    let ghost all = sink_models(sinks@);
    let mut items: Vec<SinkItem> = Vec::new();
    items.push(SinkItem { label: "System Default".to_owned(), name: None });
    assert(sink_choices(items@) =~= outputs(all.take(0)));
    let mut i: usize = 0;
    while i < sinks.len()
        invariant
            i <= sinks@.len(),
            all == sink_models(sinks@),
            sink_choices(items@) == outputs(all.take(i as int)),
        decreases sinks@.len() - i,
    {
        let ghost had = items@;
        items.push(
            SinkItem {
                label: sinks[i].description.clone(),
                name: Some(sinks[i].name.clone()),
            },
        );
        proof {
            let last = SinkChoice {
                label: all[i as int].description,
                name: Some(all[i as int].name),
            };
            assert(all[i as int] == sinks@[i as int]@);
            assert(sink_choices(items@) =~= sink_choices(had).push(last));
            assert(outputs(all.take(i + 1)) =~= outputs(all.take(i as int)).push(last));
        }
        i += 1;
    }
    assert(all.take(i as int) =~= all);
    items
}

// ---- The input drop-down of a channel ------------------------------------------------

/// The content of an input drop-down: what it shows, the assignment behind
/// each position, and the selected position.
#[derive(Debug, PartialEq, Eq)]
pub struct InputEntries {
    pub labels: Vec<String>,
    pub assignments: Vec<Option<Assignment>>,
    pub selected: usize,
}

/// What an [`InputEntries`] says.
#[verifier::ext_equal]
pub struct EntriesModel {
    pub labels: Seq<Seq<char>>,
    pub assignments: Seq<Option<AssignmentModel>>,
    pub selected: int,
}

/// What some optional assignments say.
pub open spec fn assignment_models(list: Seq<Option<Assignment>>) -> Seq<Option<AssignmentModel>> {
    list.map_values(|a: Option<Assignment>| config::assigned(a))
}

impl View for InputEntries {
    type V = EntriesModel;

    open spec fn view(&self) -> EntriesModel {
        EntriesModel {
            labels: text::texts(self.labels@),
            assignments: assignment_models(self.assignments@),
            selected: self.selected as int,
        }
    }
}

/// How an assignment is shown that cannot be chosen at the moment.
pub open spec fn placeholder(a: AssignmentModel) -> Seq<char> {
    match a {
        AssignmentModel::Source { name } => name + " (unavailable)"@,
        AssignmentModel::App { name } => name + " (not running)"@,
        AssignmentModel::Virtual => "Virtual Device"@,
    }
}

/// Whether the item at `i` is the first with an assignment.
pub open spec fn first_input(
    items: Seq<InputModel>,
    current: Option<AssignmentModel>,
    i: int,
) -> bool {
    &&& 0 <= i < items.len()
    &&& items[i].assignment == current
    &&& forall|j: int| 0 <= j < i ==> (#[trigger] items[j]).assignment != current
}

/// Whether an assignment can be chosen.
pub open spec fn offered(items: Seq<InputModel>, current: Option<AssignmentModel>) -> bool {
    exists|i: int| 0 <= i < items.len() && (#[trigger] items[i]).assignment == current
}

/// The labels of some items.
pub open spec fn item_labels(items: Seq<InputModel>) -> Seq<Seq<char>> {
    items.map_values(|i: InputModel| i.label)
}

/// The assignments of some items.
pub open spec fn item_assignments(items: Seq<InputModel>) -> Seq<Option<AssignmentModel>> {
    items.map_values(|i: InputModel| i.assignment)
}

/// The content of the drop-down of a channel with an assignment: the first
/// item with the assignment is selected. If there is none (device unplugged,
/// app not running), a placeholder is appended, so that the assignment is not
/// silently lost.
pub open spec fn entries(
    items: Seq<InputModel>,
    current: Option<AssignmentModel>,
) -> EntriesModel {
    if offered(items, current) {
        EntriesModel {
            labels: item_labels(items),
            assignments: item_assignments(items),
            selected: choose|i: int| first_input(items, current, i),
        }
    } else {
        match current {
            Some(a) => EntriesModel {
                labels: item_labels(items).push(placeholder(a)),
                assignments: item_assignments(items).push(current),
                selected: items.len() as int,
            },
            None => EntriesModel {
                labels: item_labels(items),
                assignments: item_assignments(items),
                selected: 0,
            },
        }
    }
}

proof fn lemma_first_input(items: Seq<InputModel>, current: Option<AssignmentModel>, i: int)
    requires
        first_input(items, current, i),
    ensures
        offered(items, current),
        (choose|k: int| first_input(items, current, k)) == i,
{
    let k = choose|k: int| first_input(items, current, k);
    assert(first_input(items, current, k));
    assert(items[i].assignment == current && items[k].assignment == current);
}

fn make_placeholder(a: &Assignment) -> (out: String)
    ensures
        out@ == placeholder(a@),
{
    match a {
        Assignment::Source { name } => {
            let mut out = name.clone();
            out.append(" (unavailable)");
            out
        },
        Assignment::App { name } => {
            let mut out = name.clone();
            out.append(" (not running)");
            out
        },
        Assignment::Virtual => "Virtual Device".to_owned(),
    }
}

fn copy_assignment(a: &Option<Assignment>) -> (out: Option<Assignment>)
    ensures
        config::assigned(out) == config::assigned(*a),
{
    match a {
        Some(a) => Some(a.duplicate()),
        None => None,
    }
}

/// The content of the input drop-down of a channel.
pub fn input_entries(items: &Vec<InputItem>, current: &Option<Assignment>) -> (out: InputEntries)
    ensures
        out@ == entries(input_models(items@), config::assigned(*current)),
{
    let ghost all = input_models(items@);
    let ghost wanted = config::assigned(*current);
    let mut labels: Vec<String> = Vec::new();
    let mut assignments: Vec<Option<Assignment>> = Vec::new();
    let mut selected: Option<usize> = None;
    let mut i: usize = 0;
    assert(text::texts(labels@) =~= item_labels(all.take(0)));
    assert(assignment_models(assignments@) =~= item_assignments(all.take(0)));
    while i < items.len()
        invariant
            i <= items@.len(),
            all == input_models(items@),
            wanted == config::assigned(*current),
            text::texts(labels@) == item_labels(all.take(i as int)),
            assignment_models(assignments@) == item_assignments(all.take(i as int)),
            match selected {
                Some(k) => first_input(all, wanted, k as int),
                None => forall|j: int| 0 <= j < i ==> (#[trigger] all[j]).assignment != wanted,
            },
        decreases items@.len() - i,
    {
        let ghost had = labels@;
        let ghost had_assignments = assignments@;
        proof {
            assert(all[i as int] == items@[i as int]@);
        }
        if selected.is_none() && config::same_assignment(&items[i].assignment, current) {
            selected = Some(i);
            assert(first_input(all, wanted, i as int));
        }
        labels.push(items[i].label.clone());
        assignments.push(copy_assignment(&items[i].assignment));
        proof {
            let item = all[i as int];
            assert(text::texts(labels@) =~= text::texts(had).push(item.label));
            assert(item_labels(all.take(i + 1)) =~= item_labels(all.take(i as int)).push(
                item.label,
            ));
            assert(assignment_models(assignments@) =~= assignment_models(had_assignments).push(
                item.assignment,
            ));
            assert(item_assignments(all.take(i + 1)) =~= item_assignments(
                all.take(i as int),
            ).push(item.assignment));
        }
        i += 1;
    }
    assert(all.take(i as int) =~= all);
    let place: usize = match selected {
        Some(k) => {
            proof {
                lemma_first_input(all, wanted, k as int);
            }
            k
        },
        None => match current {
            Some(a) => {
                let ghost had = labels@;
                let ghost had_assignments = assignments@;
                let place: usize = labels.len();
                labels.push(make_placeholder(a));
                assignments.push(Some(a.duplicate()));
                proof {
                    assert(text::texts(labels@) =~= text::texts(had).push(placeholder(a@)));
                    assert(assignment_models(assignments@) =~= assignment_models(
                        had_assignments,
                    ).push(wanted));
                    assert(item_labels(all).len() == all.len());
                    assert(text::texts(had).len() == had.len());
                }
                place
            },
            None => 0,
        },
    };
    InputEntries { labels, assignments, selected: place }
}

impl InputEntries {
    /// Whether a drop-down that shows something has to be filled again with
    /// this: its labels, the assignments behind them or the selected position
    /// are others.
    pub fn differs(&self, shown: &InputEntries) -> (yes: bool)
        ensures
            yes == (shown@ != self@),
    {
        let same = same_texts(&shown.labels, &self.labels) && same_assignments(
            &shown.assignments,
            &self.assignments,
        ) && shown.selected == self.selected;
        assert(same ==> shown@ =~= self@);
        !same
    }
}

fn same_assignments(a: &Vec<Option<Assignment>>, b: &Vec<Option<Assignment>>) -> (same: bool)
    ensures
        same == (assignment_models(a@) == assignment_models(b@)),
{
    let ghost left = assignment_models(a@);
    let ghost right = assignment_models(b@);
    assert(left.len() == a@.len() && right.len() == b@.len());
    if a.len() != b.len() {
        return false;
    }
    let mut i: usize = 0;
    while i < a.len()
        invariant
            a@.len() == b@.len(),
            i <= a@.len(),
            left == assignment_models(a@),
            right == assignment_models(b@),
            forall|j: int| 0 <= j < i ==> #[trigger] left[j] == right[j],
        decreases a@.len() - i,
    {
        assert(left[i as int] == config::assigned(a@[i as int]));
        assert(right[i as int] == config::assigned(b@[i as int]));
        if !config::same_assignment(&a[i], &b[i]) {
            return false;
        }
        i += 1;
    }
    assert(left =~= right);
    true
}

fn same_texts(a: &Vec<String>, b: &Vec<String>) -> (same: bool)
    ensures
        same == (text::texts(a@) == text::texts(b@)),
{
    assert(text::texts(a@).len() == a@.len() && text::texts(b@).len() == b@.len());
    if a.len() != b.len() {
        return false;
    }
    let mut i: usize = 0;
    while i < a.len()
        invariant
            a@.len() == b@.len(),
            i <= a@.len(),
            forall|j: int| 0 <= j < i ==> #[trigger] text::texts(a@)[j] == text::texts(b@)[j],
        decreases a@.len() - i,
    {
        assert(text::texts(a@)[i as int] == a@[i as int]@);
        assert(text::texts(b@)[i as int] == b@[i as int]@);
        if !text::same_text(a[i].as_str(), b[i].as_str()) {
            return false;
        }
        i += 1;
    }
    assert(text::texts(a@) =~= text::texts(b@));
    true
}

/// The assignment behind a position of a drop-down; none if there is no such
/// position.
pub open spec fn picked(
    assignments: Seq<Option<AssignmentModel>>,
    selected: int,
) -> Option<AssignmentModel> {
    if 0 <= selected < assignments.len() {
        assignments[selected]
    } else {
        None
    }
}

/// The assignment that was chosen in a drop-down.
pub fn picked_assignment(assignments: &Vec<Option<Assignment>>, selected: usize) -> (out: Option<
    Assignment,
>)
    ensures
        config::assigned(out) == picked(assignment_models(assignments@), selected as int),
{
    if selected < assignments.len() {
        assert(assignment_models(assignments@)[selected as int] == config::assigned(
            assignments@[selected as int],
        ));
        copy_assignment(&assignments[selected])
    } else {
        None
    }
}

/// Whether an output is the first of a list with some name.
pub open spec fn first_sink(items: Seq<SinkChoice>, current: Option<Seq<char>>, i: int) -> bool {
    &&& 0 <= i < items.len()
    &&& items[i].name == current
    &&& forall|j: int| 0 <= j < i ==> (#[trigger] items[j]).name != current
}

/// Which output of a list is shown as the current one: the first of its name,
/// or the one at the top where there is none.
pub open spec fn shown_sink(items: Seq<SinkChoice>, current: Option<Seq<char>>) -> int {
    if exists|i: int| first_sink(items, current, i) {
        choose|i: int| first_sink(items, current, i)
    } else {
        0
    }
}

/// Which entry of a drop-down shows the current output.
pub fn selected_sink(items: &Vec<SinkItem>, current: &Option<String>) -> (at: usize)
    ensures
        at == shown_sink(sink_choices(items@), config::optional_text(*current)),
{
    let ghost all = sink_choices(items@);
    let ghost wanted = config::optional_text(*current);
    let mut i: usize = 0;
    while i < items.len()
        invariant
            i <= items@.len(),
            all == sink_choices(items@),
            wanted == config::optional_text(*current),
            forall|j: int| 0 <= j < i ==> (#[trigger] all[j]).name != wanted,
        decreases items@.len() - i,
    {
        assert(all[i as int] == items@[i as int]@);
        let same = match (&items[i].name, current) {
            (Some(a), Some(b)) => text::same_text(a.as_str(), b.as_str()),
            (None, None) => true,
            _ => false,
        };
        if same {
            proof {
                lemma_first_sink(all, wanted, i as int);
            }
            return i;
        }
        i += 1;
    }
    0
}

/// There is only one first output of a name.
proof fn lemma_first_sink(items: Seq<SinkChoice>, current: Option<Seq<char>>, i: int)
    requires
        first_sink(items, current, i),
    ensures
        shown_sink(items, current) == i,
{
    let k = choose|k: int| first_sink(items, current, k);
    assert(first_sink(items, current, k));
}

/// The sink that was chosen in a drop-down; none for the default of the system.
pub fn picked_sink(items: &Vec<SinkItem>, selected: usize) -> (out: Option<String>)
    ensures
        config::optional_text(out) == if selected < items@.len() {
            items@[selected as int]@.name
        } else {
            None
        },
{
    if selected < items.len() {
        match &items[selected].name {
            Some(name) => Some(name.clone()),
            None => None,
        }
    } else {
        None
    }
}

// ---- Descriptions ------------------------------------------------------------------

/// The first sink of a name.
pub open spec fn sink_named(sinks: Seq<SinkModel>, name: Seq<char>) -> Option<SinkModel>
    decreases sinks.len(),
{
    if sinks.len() == 0 {
        None
    } else if sinks[0].name == name {
        Some(sinks[0])
    } else {
        sink_named(sinks.skip(1), name)
    }
}

/// Where the monitor mix is routed, in words.
pub open spec fn monitor_label(device: Option<Seq<char>>, sinks: Seq<SinkModel>) -> Seq<char> {
    match device {
        Some(name) => match sink_named(sinks, name) {
            Some(sink) => sink.description,
            None => "system default output"@,
        },
        None => "system default output"@,
    }
}

/// Where the monitor mix is routed, as the sidebar says it.
pub fn monitor_summary(device: &Option<String>, sinks: &Vec<SinkInfo>) -> (out: String)
    ensures
        out@ == "Routed to "@ + monitor_label(
            config::optional_text(*device),
            sink_models(sinks@),
        ),
{
    let mut out = "Routed to ".to_owned();
    let ghost all = sink_models(sinks@);
    if let Some(name) = device {
        let mut i: usize = 0;
        assert(all.skip(0) =~= all);
        while i < sinks.len()
            invariant
                i <= sinks@.len(),
                all == sink_models(sinks@),
                sink_named(all, name@) == sink_named(all.skip(i as int), name@),
                out@ == "Routed to "@,
                *device == Some(*name),
            decreases sinks@.len() - i,
        {
            proof {
                assert(all.skip(i as int)[0] == sinks@[i as int]@);
                assert(all.skip(i as int).skip(1) =~= all.skip(i + 1));
            }
            if sinks[i].name == *name {
                out.append(sinks[i].description.as_str());
                return out;
            }
            i += 1;
        }
    }
    out.append("system default output");
    out
}

/// What feeds a channel, in words; a source is described as the audio server
/// does, or else by its name.
pub open spec fn assignment_summary(
    a: Option<AssignmentModel>,
    description: Option<Seq<char>>,
) -> Seq<char> {
    match a {
        None => "No input"@,
        Some(AssignmentModel::Source { name }) => match description {
            Some(description) => description,
            None => name,
        },
        Some(AssignmentModel::App { name }) => name + " — application"@,
        Some(AssignmentModel::Virtual) => "Virtual device"@,
    }
}

/// What feeds a channel, as the sidebar says it.
pub fn describe_assignment(a: &Option<Assignment>, description: Option<String>) -> (out: String)
    ensures
        out@ == assignment_summary(
            config::assigned(*a),
            config::optional_text(description),
        ),
{
    match a {
        None => "No input".to_owned(),
        Some(Assignment::Source { name }) => match description {
            Some(description) => description,
            None => name.clone(),
        },
        Some(Assignment::App { name }) => {
            let mut out = name.clone();
            out.append(" — application");
            out
        },
        Some(Assignment::Virtual) => "Virtual device".to_owned(),
    }
}

// ---- The menu for new channels ---------------------------------------------------------

/// An entry of the menu for new channels.
#[derive(Debug, PartialEq, Eq)]
pub struct MenuEntry {
    pub label: String,
    pub action: String,
}

/// What a [`MenuEntry`] says.
pub struct MenuModel {
    pub label: Seq<char>,
    pub action: Seq<char>,
}

impl View for MenuEntry {
    type V = MenuModel;

    open spec fn view(&self) -> MenuModel {
        MenuModel { label: self.label@, action: self.action@ }
    }
}

/// The entry that adds a channel of a name.
pub open spec fn add_entry(name: Seq<char>) -> MenuModel {
    MenuModel { label: name, action: "win.add-channel('"@ + name + "')"@ }
}

/// What some entries say.
pub open spec fn menu_models(entries: Seq<MenuEntry>) -> Seq<MenuModel> {
    entries.map_values(|e: MenuEntry| e@)
}

/// The menu for new channels: the unused template names, and a custom name.
pub open spec fn add_entries(cfg: ConfigModel) -> Seq<MenuModel> {
    channels::unused_names(cfg.channels).map_values(|n: Seq<char>| add_entry(n)).push(
        MenuModel { label: "Custom Channel"@, action: "win.add-channel('')"@ },
    )
}

impl Config {
    /// The menu for new channels.
    pub fn add_menu(&self) -> (out: Vec<MenuEntry>)
        ensures
            menu_models(out@) == add_entries(self@),
    {
        let names = self.unused_template_names();
        let ghost all = names@.map_values(|s: &'static str| s@);
        let ghost entry = |n: Seq<char>| add_entry(n);
        let mut out: Vec<MenuEntry> = Vec::new();
        let mut i: usize = 0;
        assert(menu_models(out@) =~= all.take(0).map_values(entry));
        while i < names.len()
            invariant
                i <= names@.len(),
                all == names@.map_values(|s: &'static str| s@),
                entry == (|n: Seq<char>| add_entry(n)),
                menu_models(out@) == all.take(i as int).map_values(entry),
            decreases names@.len() - i,
        {
            let ghost had = out@;
            let mut action = "win.add-channel('".to_owned();
            action.append(names[i]);
            action.append("')");
            out.push(MenuEntry { label: names[i].to_owned(), action });
            proof {
                assert(all[i as int] == names@[i as int]@);
                assert(menu_models(out@) =~= menu_models(had).push(add_entry(all[i as int])));
                assert(all.take(i + 1).map_values(entry) =~= all.take(i as int).map_values(
                    entry,
                ).push(add_entry(all[i as int])));
            }
            i += 1;
        }
        assert(all.take(i as int) =~= all);
        let ghost had = out@;
        let last = MenuEntry {
            label: "Custom Channel".to_owned(),
            action: "win.add-channel('')".to_owned(),
        };
        let ghost last_model = last@;
        out.push(last);
        assert(menu_models(out@) =~= menu_models(had).push(last_model));
        out
    }
}

// ---- Laws ------------------------------------------------------------------------------

/// An assignment is never lost by filling a drop-down: what is selected in it
/// is the assignment that the channel has, whether or not that can be chosen at
/// the moment.
pub proof fn law_assignment_kept(
    sources: Seq<SourceModel>,
    apps: Seq<Seq<char>>,
    current: Option<AssignmentModel>,
)
    ensures
        ({
            let shown = entries(inputs(sources, apps), current);
            &&& shown.labels.len() == shown.assignments.len()
            &&& 0 <= shown.selected < shown.labels.len()
            &&& picked(shown.assignments, shown.selected) == current
        }),
{
    let items = inputs(sources, apps);
    assert(items[0] == fixed_inputs()[0]);
    if current is None {
        assert(items[0].assignment == current);
    }
    if offered(items, current) {
        lemma_offered_first(items, current);
        let k = choose|k: int| first_input(items, current, k);
        assert(first_input(items, current, k));
    }
}

proof fn lemma_offered_first(items: Seq<InputModel>, current: Option<AssignmentModel>)
    requires
        offered(items, current),
    ensures
        exists|i: int| first_input(items, current, i),
    decreases items.len(),
{
    let rest = items.drop_last();
    if offered(rest, current) {
        lemma_offered_first(rest, current);
        let i = choose|i: int| first_input(rest, current, i);
        assert forall|j: int| 0 <= j < i implies (#[trigger] items[j]).assignment != current by {
            assert(items[j] == rest[j]);
        }
        assert(first_input(items, current, i));
    } else {
        assert forall|j: int| 0 <= j < items.len() - 1 implies (#[trigger] items[j]).assignment
            != current by {
            assert(items[j] == rest[j]);
        }
        assert(first_input(items, current, items.len() - 1));
    }
}

/// Every source and every application can be chosen, and so can the virtual
/// device and no input.
pub proof fn law_everything_offered(sources: Seq<SourceModel>, apps: Seq<Seq<char>>)
    ensures
        offered(inputs(sources, apps), None),
        offered(inputs(sources, apps), Some(AssignmentModel::Virtual)),
        forall|i: int|
            0 <= i < sources.len() ==> offered(
                inputs(sources, apps),
                Some(AssignmentModel::Source { name: (#[trigger] sources[i]).name }),
            ),
        forall|i: int|
            0 <= i < apps.len() ==> offered(
                inputs(sources, apps),
                Some(AssignmentModel::App { name: #[trigger] apps[i] }),
            ),
{
    broadcast use vstd::seq_lib::group_filter_ensures;

    let items = inputs(sources, apps);
    let front = fixed_inputs() + source_inputs(sources, false);
    let middle = front + app_inputs(apps);
    assert(items[0] == fixed_inputs()[0]);
    assert(items[1] == fixed_inputs()[1]);
    assert forall|i: int| 0 <= i < sources.len() implies offered(
        items,
        Some(AssignmentModel::Source { name: (#[trigger] sources[i]).name }),
    ) by {
        let monitors = sources[i].is_monitor;
        let keep = |s: SourceModel| s.is_monitor == monitors;
        assert(keep(sources[i]));
        assert(sources.filter(keep).contains(sources[i]));
        let kept = sources.filter(keep);
        let k = choose|k: int| 0 <= k < kept.len() && kept[k] == sources[i];
        assert(source_inputs(sources, monitors)[k] == source_input(sources[i]));
        if monitors {
            assert(items[middle.len() + k] == source_inputs(sources, true)[k]);
        } else {
            assert(items[fixed_inputs().len() + k] == source_inputs(sources, false)[k]);
        }
    }
    assert forall|i: int| 0 <= i < apps.len() implies offered(
        items,
        Some(AssignmentModel::App { name: #[trigger] apps[i] }),
    ) by {
        assert(app_inputs(apps)[i] == app_input(apps[i]));
        assert(items[front.len() + i] == app_inputs(apps)[i]);
    }
}

/// The drop-down of outputs shows the device that is in use, if it is there, and
/// the system default if it is not or if no device was picked.
pub proof fn law_output_shown(sinks: Seq<SinkModel>, current: Option<Seq<char>>)
    ensures
        ({
            let items = outputs(sinks);
            let shown = items[shown_sink(items, current)];
            &&& 0 <= shown_sink(items, current) < items.len()
            &&& shown.name == match current {
                Some(name) => if exists|i: int|
                    0 <= i < sinks.len() && (#[trigger] sinks[i]).name == name {
                    Some(name)
                } else {
                    None
                },
                None => None,
            }
        }),
{
    let items = outputs(sinks);
    if exists|i: int| first_sink(items, current, i) {
        let i = choose|i: int| first_sink(items, current, i);
        assert(first_sink(items, current, i));
        if i > 0 {
            assert(items[i].name == Some(sinks[i - 1].name));
        }
    }
    if exists|i: int| 0 <= i < sinks.len() && Some((#[trigger] sinks[i]).name) == current {
        let i = choose|i: int| 0 <= i < sinks.len() && Some((#[trigger] sinks[i]).name) == current;
        assert(items[i + 1].name == current);
        lemma_some_first_sink(items, current, i + 1);
    }
}

proof fn lemma_some_first_sink(items: Seq<SinkChoice>, current: Option<Seq<char>>, i: int)
    requires
        0 <= i < items.len(),
        items[i].name == current,
    ensures
        exists|k: int| first_sink(items, current, k),
    decreases i,
{
    if exists|j: int| 0 <= j < i && (#[trigger] items[j]).name == current {
        let j = choose|j: int| 0 <= j < i && (#[trigger] items[j]).name == current;
        lemma_some_first_sink(items, current, j);
    } else {
        assert(first_sink(items, current, i));
    }
}

/// Every input that can be chosen is one there is, under its own words: no
/// input and the virtual device come first, a source is offered by its
/// description, an application by its name.
pub proof fn law_inputs_named(sources: Seq<SourceModel>, apps: Seq<Seq<char>>, i: int)
    requires
        0 <= i < inputs(sources, apps).len(),
    ensures
        ({
            let item = inputs(sources, apps)[i];
            match item.assignment {
                None => i == 0 && item.label == "No Input"@,
                Some(AssignmentModel::Virtual) => i == 1 && item.label == "Virtual Device"@,
                Some(AssignmentModel::Source { name }) => exists|k: int|
                    0 <= k < sources.len() && (#[trigger] sources[k]).name == name
                        && sources[k].description == item.label,
                Some(AssignmentModel::App { name }) => item.label == name + " — Application"@
                    && apps.contains(name),
            }
        }),
{
    let items = inputs(sources, apps);
    let front = fixed_inputs() + source_inputs(sources, false);
    let middle = front + app_inputs(apps);
    let item = items[i];
    if i < 2 {
        assert(item == fixed_inputs()[i]);
    } else if i < front.len() {
        assert(item == source_inputs(sources, false)[i - 2]);
        lemma_source_input(sources, false, i - 2);
    } else if i < middle.len() {
        let k = i - front.len();
        assert(item == app_inputs(apps)[k]);
        assert(item == app_input(apps[k]));
        assert(apps.contains(apps[k]));
    } else {
        assert(item == source_inputs(sources, true)[i - middle.len()]);
        lemma_source_input(sources, true, i - middle.len());
    }
}

proof fn lemma_source_input(sources: Seq<SourceModel>, monitors: bool, i: int)
    requires
        0 <= i < source_inputs(sources, monitors).len(),
    ensures
        exists|k: int|
            0 <= k < sources.len() && (#[trigger] sources[k]).is_monitor == monitors
                && source_inputs(sources, monitors)[i].label == sources[k].description
                && source_inputs(sources, monitors)[i].assignment == Some(
                AssignmentModel::Source { name: sources[k].name },
            ),
{
    broadcast use vstd::seq_lib::group_filter_ensures;

    let keep = |s: SourceModel| s.is_monitor == monitors;
    let kept = sources.filter(keep);
    assert(source_inputs(sources, monitors)[i] == source_input(kept[i]));
    assert(keep(kept[i]));
    assert(kept.contains(kept[i]));
    sources.lemma_filter_contains_rev(keep, kept[i]);
    let k = choose|k: int| 0 <= k < sources.len() && sources[k] == kept[i];
    assert(sources[k].is_monitor == monitors);
}

/// Another capture device is offered behind the others and before the
/// applications, another monitor of a device at the very end.
pub proof fn law_inputs_ordered(sources: Seq<SourceModel>, apps: Seq<Seq<char>>, s: SourceModel)
    ensures
        ({
            let items = inputs(sources, apps);
            let item = InputModel {
                label: s.description,
                assignment: Some(AssignmentModel::Source { name: s.name }),
            };
            let monitors = sources.filter(|s: SourceModel| s.is_monitor).len();
            inputs(sources.push(s), apps) == if s.is_monitor {
                items.push(item)
            } else {
                items.insert(items.len() - monitors - apps.len(), item)
            }
        }),
{
    let items = inputs(sources, apps);
    let item = source_input(s);
    let keep = |s: SourceModel| s.is_monitor == true;
    let drop = |s: SourceModel| s.is_monitor == false;
    let is = |s: SourceModel| s.is_monitor;
    let entry = |s: SourceModel| source_input(s);
    assert(is =~= keep);
    lists::lemma_filter_push(sources, s, keep);
    lists::lemma_filter_push(sources, s, drop);
    let kept = sources.filter(keep);
    if s.is_monitor {
        assert(kept.push(s).map_values(entry) =~= kept.map_values(entry).push(item));
        assert(inputs(sources.push(s), apps) =~= items.push(item));
    } else {
        let others = sources.filter(drop);
        assert(others.push(s).map_values(entry) =~= others.map_values(entry).push(item));
        assert(inputs(sources.push(s), apps) =~= items.insert(
            items.len() - kept.len() - apps.len(),
            item,
        ));
    }
}

/// The drop-down shows every input under its label, in order. An assignment
/// that cannot be chosen stands behind them, with a word on why.
pub proof fn law_entries_labelled(
    items: Seq<InputModel>,
    current: Option<AssignmentModel>,
    i: int,
)
    requires
        0 <= i < items.len(),
    ensures
        ({
            let shown = entries(items, current);
            let known = exists|k: int|
                0 <= k < items.len() && (#[trigger] items[k]).assignment == current;
            &&& shown.labels[i] == items[i].label
            &&& shown.assignments[i] == items[i].assignment
            &&& shown.labels.len() == shown.assignments.len()
            &&& shown.labels.len() == items.len() + if known || current is None {
                0int
            } else {
                1
            }
            &&& !known ==> match current {
                Some(AssignmentModel::Source { name }) => shown.labels.last() == name
                    + " (unavailable)"@,
                Some(AssignmentModel::App { name }) => shown.labels.last() == name
                    + " (not running)"@,
                Some(AssignmentModel::Virtual) => shown.labels.last() == "Virtual Device"@,
                None => shown.selected == 0,
            }
            &&& known ==> shown.assignments[shown.selected] == current && (forall|k: int|
                0 <= k < shown.selected ==> (#[trigger] items[k]).assignment != current)
        }),
{
    if offered(items, current) {
        lemma_offered_first(items, current);
        let k = choose|k: int| first_input(items, current, k);
        assert(first_input(items, current, k));
        lemma_first_input(items, current, k);
    }
}

/// The outputs that can be chosen are the default of the system, first, and each
/// sink under its description.
pub proof fn law_outputs_named(sinks: Seq<SinkModel>)
    ensures
        outputs(sinks).len() == sinks.len() + 1,
        outputs(sinks)[0] == (SinkChoice { label: "System Default"@, name: None }),
        forall|i: int|
            0 <= i < sinks.len() ==> outputs(sinks)[i + 1] == (SinkChoice {
                label: (#[trigger] sinks[i]).description,
                name: Some(sinks[i].name),
            }),
{
}

/// The monitor mix is said to be routed to the device that was chosen, by its
/// description, where that is there, and else to the default of the system.
pub proof fn law_monitor_described(device: Option<Seq<char>>, sinks: Seq<SinkModel>, i: int)
    requires
        0 <= i < sinks.len(),
        forall|j: int| 0 <= j < i ==> (#[trigger] sinks[j]).name != sinks[i].name,
    ensures
        monitor_label(Some(sinks[i].name), sinks) == sinks[i].description,
        monitor_label(None, sinks) == "system default output"@,
        (device matches Some(name) && forall|j: int|
            0 <= j < sinks.len() ==> (#[trigger] sinks[j]).name != name) ==> monitor_label(
            device,
            sinks,
        ) == "system default output"@,
{
    lemma_sink_named(sinks, sinks[i].name, i);
    if let Some(name) = device {
        if forall|j: int| 0 <= j < sinks.len() ==> (#[trigger] sinks[j]).name != name {
            lemma_no_sink_named(sinks, name);
        }
    }
}

proof fn lemma_sink_named(sinks: Seq<SinkModel>, name: Seq<char>, i: int)
    requires
        0 <= i < sinks.len(),
        sinks[i].name == name,
        forall|j: int| 0 <= j < i ==> (#[trigger] sinks[j]).name != name,
    ensures
        sink_named(sinks, name) == Some(sinks[i]),
    decreases sinks.len(),
{
    if i > 0 {
        let rest = sinks.skip(1);
        assert(sinks[0].name != name);
        assert forall|j: int| 0 <= j < i - 1 implies (#[trigger] rest[j]).name != name by {
            assert(rest[j] == sinks[j + 1]);
        }
        lemma_sink_named(rest, name, i - 1);
    }
}

proof fn lemma_no_sink_named(sinks: Seq<SinkModel>, name: Seq<char>)
    requires
        forall|j: int| 0 <= j < sinks.len() ==> (#[trigger] sinks[j]).name != name,
    ensures
        sink_named(sinks, name) is None,
    decreases sinks.len(),
{
    if sinks.len() > 0 {
        let rest = sinks.skip(1);
        assert(sinks[0].name != name);
        assert forall|j: int| 0 <= j < rest.len() implies (#[trigger] rest[j]).name != name by {
            assert(rest[j] == sinks[j + 1]);
        }
        lemma_no_sink_named(rest, name);
    }
}

/// What feeds a channel is said by the description of the source, or else its
/// name, and by the name of the application.
pub proof fn law_assignment_described(name: Seq<char>, description: Seq<char>)
    ensures
        assignment_summary(Some(AssignmentModel::Source { name }), Some(description))
            == description,
        assignment_summary(Some(AssignmentModel::Source { name }), None) == name,
        forall|d: Option<Seq<char>>|
            #[trigger] assignment_summary(Some(AssignmentModel::App { name }), d) == name
                + " — application"@,
        forall|d: Option<Seq<char>>|
            #[trigger] assignment_summary(Some(AssignmentModel::Virtual), d)
                == "Virtual device"@,
        forall|d: Option<Seq<char>>| #[trigger] assignment_summary(None, d) == "No input"@,
{
}

/// The menu for new channels has an entry for each template name that no
/// channel has, which adds a channel of that name, and one for a custom name at
/// its end.
pub proof fn law_menu_offers(cfg: ConfigModel)
    ensures
        ({
            let names = channels::unused_names(cfg.channels);
            let menu = add_entries(cfg);
            &&& menu.len() == names.len() + 1
            &&& forall|i: int|
                0 <= i < names.len() ==> menu[i] == (MenuModel {
                    label: #[trigger] names[i],
                    action: "win.add-channel('"@ + names[i] + "')"@,
                })
            &&& menu.last() == (MenuModel {
                label: "Custom Channel"@,
                action: "win.add-channel('')"@,
            })
        }),
{
}

/// What was picked is what stands at the position, and nothing where there is no
/// such position.
pub proof fn law_picked(assignments: Seq<Option<AssignmentModel>>, i: int)
    ensures
        0 <= i < assignments.len() ==> picked(assignments, i) == assignments[i],
        i >= assignments.len() ==> picked(assignments, i) is None,
{
}

} // verus!
