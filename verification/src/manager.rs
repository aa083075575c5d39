//! The lifecycle of containers: create, start, stop, list, enter, logs,
//! remove. Each operation decides from the store's state whether the
//! request is legal, updates the store, and returns what the shell around
//! the library needs to mirror the decision onto the system: the record to
//! persist, the interpreter to spawn, the shell to launch, the text to
//! print.

use vstd::prelude::*;
use crate::config::{ConfigView, ContainerConfig, Status};
use crate::errors::DockError;
use crate::python::{classify, detect_python_version};
use crate::storage::{
    cfg_of, corrupt_clear, has_cname, has_name, store_delete, store_save, store_wf, Storage,
};
use crate::text::{chars_of, dashes, padded, push_dashes, push_padded, string_from_chars};
use vstd::string::StringExecFns;

verus! {

/// One row of the listing: each cell left-aligned in its fixed width, a
/// single blank between cells, a newline after the last.
pub open spec fn table_row(c: ConfigView) -> Seq<char> {
    padded(c.name, 20) + seq![' '] + padded(c.status.spec_label(), 15) + seq![' '] + padded(
        c.python_version.spec_label(),
        20,
    ) + seq![' '] + padded(
        match c.port_mapping {
            Some(p) => p,
            None => "-"@,
        },
        15,
    ) + seq!['\n']
}

/// The rows of the listing, in store order.
pub open spec fn table_rows(s: Seq<ConfigView>) -> Seq<char>
    decreases s.len(),
{
    if s.len() == 0 {
        Seq::empty()
    } else {
        table_rows(s.drop_last()) + table_row(s.last())
    }
}

/// The full listing: the header row, a rule of dashes, then one row per
/// record.
pub open spec fn render_table(s: Seq<ConfigView>) -> Seq<char> {
    padded("NAME"@, 20) + seq![' '] + padded("STATUS"@, 15) + seq![' '] + padded("PYTHON"@, 20)
        + seq![' '] + padded("PORT"@, 15) + seq!['\n'] + dashes(70) + seq!['\n'] + table_rows(s)
}

/// The message `logs` answers with when no log file exists yet.
pub open spec fn no_logs_message(name: Seq<char>) -> Seq<char> {
    "No logs available for container '"@ + name + "'"@
}

/// The command-line marker by which a container's processes are found and
/// signalled.
pub open spec fn spec_signal_pattern(name: Seq<char>) -> Seq<char> {
    "DOCK_CONTAINER="@ + name
}

/// Relies on `uuid::Uuid::new_v4` and on its `Display` implementation: a
/// fresh random version-4 UUID, rendered in the hyphenated form, which is
/// always 36 characters.
#[verifier::external_body]
fn fresh_id() -> (r: String)
    ensures
        r@.len() == 36,
{
    uuid::Uuid::new_v4().to_string()
}

/// The manager that owns the store and runs the lifecycle.
pub struct ContainerManager {
    storage: Storage,
}

impl ContainerManager {
    /// The records of the store the manager owns.
    pub closed spec fn entries(self) -> Seq<ConfigView> {
        self.storage.entries()
    }

    /// The names whose config files exist but are corrupt.
    pub closed spec fn corrupt(self) -> Seq<Seq<char>> {
        self.storage.corrupt()
    }

    pub closed spec fn base(self) -> Seq<char> {
        self.storage.base()
    }

    pub open spec fn wf(self) -> bool {
        store_wf(self.entries(), self.corrupt())
    }

    pub fn new(storage: Storage) -> (m: ContainerManager)
        ensures
            m.entries() == storage.entries(),
            m.corrupt() == storage.corrupt(),
            m.base() == storage.base(),
            m.wf() == storage.wf(),
    {
        ContainerManager { storage }
    }

    /// The store, for path lookups.
    pub fn storage(&self) -> (r: &Storage)
        ensures
            r.entries() == self.entries(),
            r.corrupt() == self.corrupt(),
            r.base() == self.base(),
    {
        &self.storage
    }

    /// Creates a container: refused with `AlreadyExists` if the name is
    /// taken — by a loadable container or by a corrupt one, either way its
    /// config file exists — and with `Io` if the script could not be read
    /// (`script_content` is the script's text, or `None` where reading it
    /// failed). Otherwise
    /// the script is classified once, a fresh id is drawn, and a stopped
    /// record with no port mapping is added to the store; the caller
    /// persists it and creates the container's filesystem root.
    pub fn create(&mut self, name: &str, script: &str, script_content: Option<&str>) -> (r: Result<
        ContainerConfig,
        DockError,
    >)
        requires
            old(self).wf(),
        ensures
            final(self).wf(),
            final(self).base() == old(self).base(),
            match r {
                Ok(c) => !has_name(old(self).entries(), name@) && !has_cname(
                    old(self).corrupt(),
                    name@,
                ) && script_content is Some && c@.name == name@ && c@.script == script@
                    && c@.python_version == classify(script_content.unwrap()@) && c@.status
                    == Status::Stopped && c@.port_mapping is None && c@.id.len() == 36 && final(self).entries() == store_save(old(self).entries(), c@) && final(self).corrupt() == old(self).corrupt(),
                Err(e) => final(self).entries() == old(self).entries() && final(self).corrupt()
                    == old(self).corrupt() && ((e == DockError::AlreadyExists && (has_name(
                    old(self).entries(),
                    name@,
                ) || has_cname(old(self).corrupt(), name@))) || (e == DockError::Io && !has_name(
                    old(self).entries(),
                    name@,
                ) && !has_cname(old(self).corrupt(), name@) && script_content is None)),
            },
    {
        if self.storage.container_exists(name) {
            return Err(DockError::AlreadyExists);
        }
        match script_content {
            None => Err(DockError::Io),
            Some(content) => {
                let version = detect_python_version(content);
                let id = fresh_id();
                let config = ContainerConfig {
                    id,
                    name: name.to_owned(),
                    script: script.to_owned(),
                    python_version: version,
                    status: Status::Stopped,
                    port_mapping: None,
                };
                self.storage.save_config(&config);
                proof {
                    assert(corrupt_clear(old(self).corrupt(), config@.name) == old(self).corrupt());
                }
                Ok(config)
            },
        }
    }

    /// Starts a container: refused with `NotFound` for an unknown name,
    /// with `Parse` where the name's persisted record is corrupt, and with
    /// `InvalidState` if it is already running. Otherwise the record
    /// turns running with the given port mapping and is saved; the caller
    /// persists it, truncates the log file, and spawns the interpreter
    /// named by `PythonVersion::command` under the isolation wrapper.
    pub fn start(&mut self, name: &str, port: Option<String>) -> (r: Result<
        ContainerConfig,
        DockError,
    >)
        requires
            old(self).wf(),
        ensures
            final(self).wf(),
            final(self).base() == old(self).base(),
            match r {
                Ok(c) => has_name(old(self).entries(), name@) && cfg_of(
                    old(self).entries(),
                    name@,
                ).status == Status::Stopped && c@ == (ConfigView {
                    status: Status::Running,
                    port_mapping: port.deep_view(),
                    ..cfg_of(old(self).entries(), name@)
                }) && final(self).entries() == store_save(old(self).entries(), c@) && final(self).corrupt() == old(self).corrupt(),
                Err(e) => final(self).entries() == old(self).entries() && final(self).corrupt()
                    == old(self).corrupt() && ((e == DockError::NotFound && !has_name(
                    old(self).entries(),
                    name@,
                ) && !has_cname(old(self).corrupt(), name@)) || (e == DockError::Parse
                    && has_cname(old(self).corrupt(), name@)) || (e == DockError::InvalidState
                    && has_name(old(self).entries(), name@) && cfg_of(
                    old(self).entries(),
                    name@,
                ).status == Status::Running)),
            },
    {
        let loaded = self.storage.load_config(name);
        match loaded {
            Err(e) => Err(e),
            Ok(mut config) => {
                if config.status == Status::Running {
                    return Err(DockError::InvalidState);
                }
                config.status = Status::Running;
                config.port_mapping = port;
                self.storage.save_config(&config);
                proof {
                    assert(corrupt_clear(old(self).corrupt(), config@.name) == old(self).corrupt());
                }
                Ok(config)
            },
        }
    }

    /// Stops a container: refused with `NotFound` for an unknown name,
    /// with `Parse` where the name's persisted record is corrupt, and with
    /// `InvalidState` if it is already stopped — a refused stop leaves
    /// the store exactly as it was, however often it is retried. Otherwise
    /// the record turns stopped, the port mapping is cleared, and the
    /// caller persists it and signals the container's processes
    /// (best-effort, by the `signal_pattern` marker).
    pub fn stop(&mut self, name: &str) -> (r: Result<ContainerConfig, DockError>)
        requires
            old(self).wf(),
        ensures
            final(self).wf(),
            final(self).base() == old(self).base(),
            match r {
                Ok(c) => has_name(old(self).entries(), name@) && cfg_of(
                    old(self).entries(),
                    name@,
                ).status == Status::Running && c@ == (ConfigView {
                    status: Status::Stopped,
                    port_mapping: None,
                    ..cfg_of(old(self).entries(), name@)
                }) && final(self).entries() == store_save(old(self).entries(), c@) && final(self).corrupt() == old(self).corrupt(),
                Err(e) => final(self).entries() == old(self).entries() && final(self).corrupt()
                    == old(self).corrupt() && ((e == DockError::NotFound && !has_name(
                    old(self).entries(),
                    name@,
                ) && !has_cname(old(self).corrupt(), name@)) || (e == DockError::Parse
                    && has_cname(old(self).corrupt(), name@)) || (e == DockError::InvalidState
                    && has_name(old(self).entries(), name@) && cfg_of(
                    old(self).entries(),
                    name@,
                ).status == Status::Stopped)),
            },
    {
        let loaded = self.storage.load_config(name);
        match loaded {
            Err(e) => Err(e),
            Ok(mut config) => {
                if config.status == Status::Stopped {
                    return Err(DockError::InvalidState);
                }
                config.status = Status::Stopped;
                config.port_mapping = None;
                self.storage.save_config(&config);
                proof {
                    assert(corrupt_clear(old(self).corrupt(), config@.name) == old(self).corrupt());
                }
                Ok(config)
            },
        }
    }

    /// The marker under which the container's processes run, used by the
    /// best-effort termination signal.
    pub fn signal_pattern(&self, name: &str) -> (r: String)
        ensures
            r@ == spec_signal_pattern(name@),
    {
        let mut r = String::new();
        r.append("DOCK_CONTAINER=");
        r.append(name);
        r
    }

    /// The listing: `None` for an empty store — reported distinctly, not as
    /// a table with no rows — and otherwise the rendered table.
    pub fn list(&self) -> (r: Option<String>)
        ensures
            match r {
                None => self.entries().len() == 0,
                Some(t) => self.entries().len() > 0 && t@ == render_table(self.entries()),
            },
    {
        let configs = self.storage.list_containers();
        if configs.len() == 0 {
            proof {
                assert(self.entries().len() == configs.deep_view().len());
            }
            return None;
        }
        let mut out: Vec<char> = Vec::new();
        let name_h = chars_of("NAME");
        push_padded(&mut out, &name_h, 20);
        out.push(' ');
        let status_h = chars_of("STATUS");
        push_padded(&mut out, &status_h, 15);
        out.push(' ');
        let python_h = chars_of("PYTHON");
        push_padded(&mut out, &python_h, 20);
        out.push(' ');
        let port_h = chars_of("PORT");
        push_padded(&mut out, &port_h, 15);
        out.push('\n');
        push_dashes(&mut out, 70);
        out.push('\n');
        proof {
            assert(out@ =~= padded("NAME"@, 20) + seq![' '] + padded("STATUS"@, 15) + seq![' ']
                + padded("PYTHON"@, 20) + seq![' '] + padded("PORT"@, 15) + seq!['\n'] + dashes(70)
                + seq!['\n']);
        }
        let ghost head = out@;
        let mut i: usize = 0;
        while i < configs.len()
            invariant
                i <= configs@.len(),
                configs.deep_view().len() == configs@.len(),
                out@ == head + table_rows(configs.deep_view().subrange(0, i as int)),
            decreases configs@.len() - i,
        {
            let c = &configs[i];
            let name_c = chars_of(c.name.as_str());
            push_padded(&mut out, &name_c, 20);
            out.push(' ');
            let status_c = chars_of(c.status.label());
            push_padded(&mut out, &status_c, 15);
            out.push(' ');
            let python_c = chars_of(c.python_version.label());
            push_padded(&mut out, &python_c, 20);
            out.push(' ');
            let port_c = match &c.port_mapping {
                Some(p) => chars_of(p.as_str()),
                None => chars_of("-"),
            };
            push_padded(&mut out, &port_c, 15);
            out.push('\n');
            proof {
                let entries = configs.deep_view();
                assert(entries[i as int] == configs@[i as int].deep_view());
                assert(entries.subrange(0, i + 1).drop_last() =~= entries.subrange(0, i as int));
                assert(entries.subrange(0, i + 1).last() == entries[i as int]);
                assert(out@ =~= head + table_rows(entries.subrange(0, i as int)) + table_row(
                    entries[i as int],
                ));
                assert(out@ =~= head + (table_rows(entries.subrange(0, i as int)) + table_row(
                    entries[i as int],
                )));
            }
            i = i + 1;
        }
        proof {
            assert(configs.deep_view().subrange(0, configs@.len() as int) =~= configs.deep_view());
            assert(out@ =~= render_table(self.entries()));
        }
        Some(string_from_chars(&out))
    }

    /// Enter: refused with `NotFound` for an unknown name (the lifecycle
    /// state is not checked); otherwise the shell to launch inside the
    /// captured root — the preferred one when it is available on the
    /// system, the fallback otherwise.
    pub fn enter(&self, name: &str, bash_available: bool) -> (r: Result<&'static str, DockError>)
        ensures
            match r {
                Ok(sh) => (has_name(self.entries(), name@) || has_cname(self.corrupt(), name@))
                    && sh@ == (if bash_available {
                    "bash"@
                } else {
                    "sh"@
                }),
                Err(e) => !has_name(self.entries(), name@) && !has_cname(self.corrupt(), name@)
                    && e == DockError::NotFound,
            },
    {
        if !self.storage.container_exists(name) {
            return Err(DockError::NotFound);
        }
        if bash_available {
            Ok("bash")
        } else {
            Ok("sh")
        }
    }

    /// Logs: the log file's content verbatim when there is one, and the
    /// distinct no-logs message — not an error — when the container has
    /// never been started.
    pub fn logs(&self, name: &str, log_content: Option<String>) -> (r: String)
        ensures
            match log_content {
                Some(c) => r@ == c@,
                None => r@ == no_logs_message(name@),
            },
    {
        match log_content {
            Some(c) => c,
            None => {
                let mut r = String::new();
                r.append("No logs available for container '");
                r.append(name);
                r.append("'");
                r
            },
        }
    }

    /// Removes a container: refused with `NotFound` for an unknown name,
    /// with `Parse` where the name's persisted record is corrupt, and with
    /// `InvalidState` while it is running — a refused remove leaves
    /// the store, and so every file, intact. Otherwise the record leaves
    /// the store and the caller deletes the container's directory tree.
    pub fn remove(&mut self, name: &str) -> (r: Result<(), DockError>)
        requires
            old(self).wf(),
        ensures
            final(self).wf(),
            final(self).base() == old(self).base(),
            match r {
                Ok(_) => has_name(old(self).entries(), name@) && cfg_of(
                    old(self).entries(),
                    name@,
                ).status == Status::Stopped && final(self).entries() == store_delete(
                    old(self).entries(),
                    name@,
                ) && final(self).corrupt() == old(self).corrupt(),
                Err(e) => final(self).entries() == old(self).entries() && final(self).corrupt()
                    == old(self).corrupt() && ((e == DockError::NotFound && !has_name(
                    old(self).entries(),
                    name@,
                ) && !has_cname(old(self).corrupt(), name@)) || (e == DockError::Parse
                    && has_cname(old(self).corrupt(), name@)) || (e == DockError::InvalidState
                    && has_name(old(self).entries(), name@) && cfg_of(
                    old(self).entries(),
                    name@,
                ).status == Status::Running)),
            },
    {
        let loaded = self.storage.load_config(name);
        match loaded {
            Err(e) => Err(e),
            Ok(config) => {
                if config.status == Status::Running {
                    return Err(DockError::InvalidState);
                }
                self.storage.delete_container(name);
                proof {
                    assert(corrupt_clear(old(self).corrupt(), name@) == old(self).corrupt());
                }
                Ok(())
            },
        }
    }
}

} // verus!
