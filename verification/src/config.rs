//! The configuration record of a container and its lifecycle status.

use vstd::prelude::*;
use crate::python::PythonVersion;

verus! {

/// The lifecycle state of a container. A container is created stopped, and
/// only the transitions stopped to running (start) and running to stopped
/// (stop) exist; removal deletes the record altogether.
#[derive(Clone, Copy, Debug, PartialEq, Eq, Structural)]
pub enum Status {
    Stopped,
    Running,
}

impl Status {
    /// The label the status is persisted and listed under.
    pub open spec fn spec_label(self) -> Seq<char> {
        match self {
            Status::Stopped => "stopped"@,
            Status::Running => "running"@,
        }
    }

    pub fn label(&self) -> (r: &'static str)
        ensures
            r@ == self.spec_label(),
    {
        match self {
            Status::Stopped => "stopped",
            Status::Running => "running",
        }
    }
}

/// The status a persisted label denotes, if any.
pub open spec fn status_of_label(s: Seq<char>) -> Option<Status> {
    if s == "stopped"@ {
        Some(Status::Stopped)
    } else if s == "running"@ {
        Some(Status::Running)
    } else {
        None
    }
}

pub fn status_from_chars(v: &Vec<char>) -> (r: Option<Status>)
    ensures
        r == status_of_label(v@),
{
    if crate::text::eq_lit(v, "stopped") {
        Some(Status::Stopped)
    } else if crate::text::eq_lit(v, "running") {
        Some(Status::Running)
    } else {
        None
    }
}

/// Every status label parses back to the status it was written for.
pub proof fn lemma_status_label_round_trip(s: Status)
    ensures
        status_of_label(s.spec_label()) == Some(s),
{
    reveal_strlit("stopped");
    reveal_strlit("running");
    assert("stopped"@ != "running"@) by {
        assert("stopped"@[0] == 's');
        assert("running"@[0] == 'r');
    }
}

/// The mathematical shape of a configuration record.
pub struct ConfigView {
    pub id: Seq<char>,
    pub name: Seq<char>,
    pub script: Seq<char>,
    pub python_version: PythonVersion,
    pub status: Status,
    pub port_mapping: Option<Seq<char>>,
}

/// One container's persisted record: its identity, the script it runs, the
/// dialect the script was classified as at creation, the lifecycle status,
/// and the port mapping supplied at the last start.
pub struct ContainerConfig {
    pub id: String,
    pub name: String,
    pub script: String,
    pub python_version: PythonVersion,
    pub status: Status,
    pub port_mapping: Option<String>,
}

impl View for ContainerConfig {
    type V = ConfigView;

    open spec fn view(&self) -> ConfigView {
        ConfigView {
            id: self.id@,
            name: self.name@,
            script: self.script@,
            python_version: self.python_version,
            status: self.status,
            port_mapping: self.port_mapping.deep_view(),
        }
    }
}

impl DeepView for ContainerConfig {
    type V = ConfigView;

    open spec fn deep_view(&self) -> ConfigView {
        self.view()
    }
}

impl ContainerConfig {
    /// An owned copy whose fields are equal to this record's.
    pub fn duplicate(&self) -> (r: ContainerConfig)
        ensures
            r@ == self@,
    {
        ContainerConfig {
            id: self.id.clone(),
            name: self.name.clone(),
            script: self.script.clone(),
            python_version: self.python_version,
            status: self.status,
            port_mapping: match &self.port_mapping {
                Some(p) => Some(p.clone()),
                None => None,
            },
        }
    }
}

} // verus!
