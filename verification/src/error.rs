//! The failures that the container reports.

use crate::names::{join, joined, texts};
use vstd::prelude::*;
use vstd::string::*;

verus! {

/// One component whose dependencies are not all registered.
#[derive(Debug, PartialEq, Eq)]
pub struct MissingReport {
    /// The name of the component.
    pub name: String,
    /// Where the component was declared, if that was recorded.
    pub debug_site: Option<String>,
    /// The names of the dependencies that nothing provides.
    pub missing: Vec<String>,
}

/// What a `MissingReport` holds.
pub struct MissingReportView {
    pub name: Seq<char>,
    pub debug_site: Option<Seq<char>>,
    pub missing: Seq<Seq<char>>,
}

impl View for MissingReport {
    type V = MissingReportView;

    open spec fn view(&self) -> MissingReportView {
        MissingReportView {
            name: self.name@,
            debug_site: match self.debug_site {
                Some(site) => Some(site@),
                None => None,
            },
            missing: texts(self.missing@),
        }
    }
}

/// A failure of the container.
#[derive(Debug, PartialEq, Eq)]
pub enum InjectError {
    /// Components with dependencies were registered more than once.
    DuplicateRegistration { types: Vec<String> },
    /// Deferred components depend on deferred components.
    IllegalLazyNesting { types: Vec<String> },
    /// Components depend on types that nothing provides.
    MissingDependencies { per_component: Vec<MissingReport> },
    /// Components depend on each other in a circle.
    DependencyCycle { types: Vec<String> },
    /// The registry holds no value of the type that was asked for.
    MissingValue { name: String },
    /// A constructor gave up, for the reason it states.
    ConstructionFailed { reason: String },
}

/// What an `InjectError` holds.
pub enum ErrorView {
    DuplicateRegistration { types: Seq<Seq<char>> },
    IllegalLazyNesting { types: Seq<Seq<char>> },
    MissingDependencies { per_component: Seq<MissingReportView> },
    DependencyCycle { types: Seq<Seq<char>> },
    MissingValue { name: Seq<char> },
    ConstructionFailed { reason: Seq<char> },
}

/// What a sequence of reports holds.
pub open spec fn report_views(reports: Seq<MissingReport>) -> Seq<MissingReportView> {
    Seq::new(reports.len(), |i: int| reports[i]@)
}

impl View for InjectError {
    type V = ErrorView;

    open spec fn view(&self) -> ErrorView {
        match self {
            InjectError::DuplicateRegistration { types } => ErrorView::DuplicateRegistration {
                types: texts(types@),
            },
            InjectError::IllegalLazyNesting { types } => ErrorView::IllegalLazyNesting {
                types: texts(types@),
            },
            InjectError::MissingDependencies {
                per_component,
            } => ErrorView::MissingDependencies { per_component: report_views(per_component@) },
            InjectError::DependencyCycle { types } => ErrorView::DependencyCycle {
                types: texts(types@),
            },
            InjectError::MissingValue { name } => ErrorView::MissingValue { name: name@ },
            InjectError::ConstructionFailed { reason } => ErrorView::ConstructionFailed {
                reason: reason@,
            },
        }
    }
}

/// The paragraph that a report shows for one component.
pub open spec fn report_text(report: MissingReportView) -> Seq<char> {
    "for type "@ + report.name + match report.debug_site {
        Some(site) => "\n at "@ + site,
        None => Seq::empty(),
    } + "\n"@ + "missing dependencies: "@ + joined(report.missing, ", "@) + "\n\n"@
}

/// The paragraphs of all reports, one after the other.
pub open spec fn reports_text(reports: Seq<MissingReportView>) -> Seq<char>
    decreases reports.len(),
{
    if reports.len() == 0 {
        Seq::empty()
    } else {
        reports_text(reports.drop_last()) + report_text(reports.last())
    }
}

/// The message of a failure.
pub open spec fn message_text(error: ErrorView) -> Seq<char> {
    match error {
        ErrorView::DuplicateRegistration { types } => "Dependencies duplications found: "@
            + joined(types, ", "@),
        ErrorView::IllegalLazyNesting { types } => "Nested lazy dependencies: "@ + joined(
            types,
            ", "@,
        ),
        ErrorView::MissingDependencies { per_component } => "Missing injection values:\n"@
            + reports_text(per_component),
        ErrorView::DependencyCycle { types } => "Dependencies cycle (one or more) found :"@
            + joined(types, ", "@),
        ErrorView::MissingValue { name } => "Missing value of type "@ + name,
        ErrorView::ConstructionFailed { reason } => reason,
    }
}

/// A copy of a list of names.
fn copy_names(names: &Vec<String>) -> (copy: Vec<String>)
    ensures
        texts(copy@) == texts(names@),
{
    let mut copy: Vec<String> = Vec::new();
    let mut i: usize = 0;
    while i < names.len()
        invariant
            i <= names.len(),
            copy@.len() == i,
            forall|j: int| 0 <= j < i ==> copy@[j]@ == names@[j]@,
        decreases names.len() - i,
    {
        copy.push(names[i].clone());
        i += 1;
    }
    assert(texts(copy@) =~= texts(names@));
    copy
}

impl Clone for MissingReport {
    /// A copy that holds what this report holds.
    fn clone(&self) -> (copy: Self)
        ensures
            copy@ == self@,
    {
        let debug_site = match &self.debug_site {
            Some(site) => Some(site.clone()),
            None => None,
        };
        MissingReport { name: self.name.clone(), debug_site, missing: copy_names(&self.missing) }
    }
}

/// A copy of a list of reports.
fn copy_reports(reports: &Vec<MissingReport>) -> (copy: Vec<MissingReport>)
    ensures
        report_views(copy@) == report_views(reports@),
{
    let mut copy: Vec<MissingReport> = Vec::new();
    let mut i: usize = 0;
    while i < reports.len()
        invariant
            i <= reports.len(),
            copy@.len() == i,
            forall|j: int| 0 <= j < i ==> copy@[j]@ == reports@[j]@,
        decreases reports.len() - i,
    {
        copy.push(reports[i].clone());
        i += 1;
    }
    assert(report_views(copy@) =~= report_views(reports@));
    copy
}

impl Clone for InjectError {
    /// A copy that holds what this failure holds.
    fn clone(&self) -> (copy: Self)
        ensures
            copy@ == self@,
    {
        match self {
            InjectError::DuplicateRegistration { types } => InjectError::DuplicateRegistration {
                types: copy_names(types),
            },
            InjectError::IllegalLazyNesting { types } => InjectError::IllegalLazyNesting {
                types: copy_names(types),
            },
            InjectError::MissingDependencies {
                per_component,
            } => InjectError::MissingDependencies { per_component: copy_reports(per_component) },
            InjectError::DependencyCycle { types } => InjectError::DependencyCycle {
                types: copy_names(types),
            },
            InjectError::MissingValue { name } => InjectError::MissingValue { name: name.clone() },
            InjectError::ConstructionFailed { reason } => InjectError::ConstructionFailed {
                reason: reason.clone(),
            },
        }
    }
}

/// A heading followed by a list of names.
fn headed_list(heading: &str, types: &Vec<String>) -> (text: String)
    ensures
        text@ == heading@ + joined(texts(types@), ", "@),
{
    let mut text = String::new();
    text.append(heading);
    let list = join(types, ", ");
    text.append(list.as_str());
    assert(text@ =~= heading@ + joined(texts(types@), ", "@));
    text
}

impl MissingReport {
    /// The paragraph that stands for this component in a message.
    pub fn paragraph(&self) -> (text: String)
        ensures
            text@ == report_text(self@),
    {
        let mut text = String::new();
        text.append("for type ");
        text.append(self.name.as_str());
        match &self.debug_site {
            Some(site) => {
                text.append("\n at ");
                text.append(site.as_str());
            },
            None => {},
        }
        text.append("\n");
        text.append("missing dependencies: ");
        let list = join(&self.missing, ", ");
        text.append(list.as_str());
        text.append("\n\n");
        assert(text@ =~= report_text(self@));
        text
    }
}

impl InjectError {
    /// The message of this failure.
    pub fn to_string(&self) -> (text: String)
        ensures
            text@ == message_text(self@),
    {
        match self {
            InjectError::DuplicateRegistration { types } => headed_list(
                "Dependencies duplications found: ",
                types,
            ),
            InjectError::IllegalLazyNesting { types } => headed_list(
                "Nested lazy dependencies: ",
                types,
            ),
            InjectError::MissingDependencies { per_component } => {
                let mut text = String::new();
                text.append("Missing injection values:\n");
                let mut i: usize = 0;
                assert(report_views(per_component@).take(0) =~= Seq::empty());
                assert(text@ =~= "Missing injection values:\n"@ + reports_text(
                    report_views(per_component@).take(0),
                ));
                while i < per_component.len()
                    invariant
                        i <= per_component.len(),
                        text@ == "Missing injection values:\n"@ + reports_text(
                            report_views(per_component@).take(i as int),
                        ),
                    decreases per_component.len() - i,
                {
                    let paragraph = per_component[i].paragraph();
                    proof {
                        let all = report_views(per_component@);
                        assert(all.take(i + 1).drop_last() =~= all.take(i as int));
                        assert(all.take(i + 1).last() == per_component@[i as int]@);
                    }
                    text.append(paragraph.as_str());
                    assert(text@ =~= "Missing injection values:\n"@ + reports_text(
                        report_views(per_component@).take(i + 1),
                    ));
                    i += 1;
                }
                assert(report_views(per_component@).take(per_component.len() as int)
                    =~= report_views(per_component@));
                text
            },
            InjectError::DependencyCycle { types } => headed_list(
                "Dependencies cycle (one or more) found :",
                types,
            ),
            InjectError::MissingValue { name } => {
                let mut text = String::new();
                text.append("Missing value of type ");
                text.append(name.as_str());
                assert(text@ =~= "Missing value of type "@ + name@);
                text
            },
            InjectError::ConstructionFailed { reason } => reason.clone(),
        }
    }
}

} // verus!
