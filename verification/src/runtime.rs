//! The runtime state of the data plane: the snapshot in use and the service status around it.
//! A snapshot is only ever replaced by a newer one; a failed refresh keeps the one in use and
//! degrades the status.
use vstd::prelude::*;
use crate::snapshot::{make_update, spec_snapshot_changed, SnapshotUpdate};
use crate::text::{digit_chars, digits_of, string_of};
use crate::types::{RuntimeSnapshot, ServiceState};

verus! {

/// The status around the snapshot.
#[derive(Debug, Clone)]
pub struct RuntimeMetadata {
    pub state: ServiceState,
    pub snapshot_version: Option<String>,
    pub last_refresh_at: Option<String>,
    pub last_error: Option<String>,
}

/// What health checks report.
#[derive(Debug, Clone)]
pub struct RuntimeInfo {
    pub service: String,
    pub version: String,
    pub bind_addr: String,
    pub state: ServiceState,
    pub snapshot_version: Option<String>,
    pub last_refresh_at: Option<String>,
    pub last_error: Option<String>,
}

/// Seconds since the Unix epoch from `std::time::SystemTime::now`, 0 when the clock is before the
/// epoch; nothing is claimed of the value.
#[verifier::external_body]
fn system_time_secs() -> u64 {
    std::time::SystemTime::now().duration_since(std::time::UNIX_EPOCH).map(|d| d.as_secs()).unwrap_or_default()
}

/// The refresh marker written at `secs` seconds after the epoch.
pub open spec fn spec_marker(secs: u64) -> Seq<char> {
    digits_of(secs as nat) + "s_since_epoch"@
}

/// The refresh marker of `secs`.
pub fn timestamp_marker(secs: u64) -> (r: String)
    ensures
        r@ == spec_marker(secs),
{
    let d = digit_chars(secs as u128);
    let mut s = string_of(d.as_slice());
    s.append("s_since_epoch");
    s
}

/// The refresh marker of the current time.
pub fn now_timestamp_marker() -> (r: String)
    ensures
        exists|secs: u64| r@ == spec_marker(secs),
{
    timestamp_marker(system_time_secs())
}

pub open spec fn opt_view(o: Option<String>) -> Option<Seq<char>> {
    match o {
        Some(s) => Some(s@),
        None => None,
    }
}

/// The snapshot in use and the status around it.
#[derive(Debug)]
pub struct RuntimeState {
    pub snapshot: Option<RuntimeSnapshot>,
    pub metadata: RuntimeMetadata,
}

impl RuntimeState {
    /// No snapshot yet; starting.
    pub fn new() -> (r: Self)
        ensures
            r.snapshot is None,
            r.metadata.state == ServiceState::Starting,
            r.metadata.snapshot_version is None,
            r.metadata.last_refresh_at is None,
            r.metadata.last_error is None,
    {
        RuntimeState {
            snapshot: None,
            metadata: RuntimeMetadata {
                state: ServiceState::Starting,
                snapshot_version: None,
                last_refresh_at: None,
                last_error: None,
            },
        }
    }

    /// What health checks report, for a service of the given name, version and address.
    pub fn runtime_info(&self, service: &str, version: &str, bind_addr: &str) -> (r: RuntimeInfo)
        ensures
            r.service@ == service@,
            r.version@ == version@,
            r.bind_addr@ == bind_addr@,
            r.state == self.metadata.state,
            opt_view(r.snapshot_version) == opt_view(self.metadata.snapshot_version),
            opt_view(r.last_refresh_at) == opt_view(self.metadata.last_refresh_at),
            opt_view(r.last_error) == opt_view(self.metadata.last_error),
    {
        RuntimeInfo {
            service: String::from_str(service),
            version: String::from_str(version),
            bind_addr: String::from_str(bind_addr),
            state: self.metadata.state,
            snapshot_version: copy_opt(&self.metadata.snapshot_version),
            last_refresh_at: copy_opt(&self.metadata.last_refresh_at),
            last_error: copy_opt(&self.metadata.last_error),
        }
    }

    /// The version of the snapshot in use.
    pub fn current_snapshot_version(&self) -> (r: Option<String>)
        ensures
            opt_view(r) == match self.snapshot {
                Some(s) => Some(s.version@),
                None => None,
            },
    {
        match &self.snapshot {
            Some(s) => Some(s.version.clone()),
            None => None,
        }
    }

    /// Whether the snapshot in use serves `/v1/responses`.
    pub fn responses_route_enabled(&self) -> (r: bool)
        ensures
            r == match self.snapshot {
                Some(s) => s.routes.responses,
                None => false,
            },
    {
        match &self.snapshot {
            Some(s) => s.routes.responses,
            None => false,
        }
    }

    /// Marks the service failed, at the refresh marker `at`.
    pub fn mark_failed_at(&mut self, err: String, at: String)
        ensures
            final(self).snapshot == old(self).snapshot,
            final(self).metadata.state == ServiceState::Failed,
            final(self).metadata.last_error == Some(err),
            final(self).metadata.last_refresh_at == Some(at),
            final(self).metadata.snapshot_version == old(self).metadata.snapshot_version,
    {
        self.metadata.state = ServiceState::Failed;
        self.metadata.last_error = Some(err);
        self.metadata.last_refresh_at = Some(at);
    }

    /// Puts a snapshot in use and marks the service ready, at the refresh marker `at`.
    pub fn apply_snapshot_at(&mut self, snapshot: RuntimeSnapshot, at: String)
        ensures
            final(self).snapshot == Some(snapshot),
            final(self).metadata.state == ServiceState::Ready,
            opt_view(final(self).metadata.snapshot_version) == Some(snapshot.version@),
            final(self).metadata.last_refresh_at == Some(at),
            final(self).metadata.last_error is None,
    {
        let version = snapshot.version.clone();
        self.snapshot = Some(snapshot);
        self.metadata.state = ServiceState::Ready;
        self.metadata.snapshot_version = Some(version);
        self.metadata.last_refresh_at = Some(at);
        self.metadata.last_error = None;
    }

    /// Marks the service degraded after a failed refresh, keeping the snapshot in use.
    pub fn mark_degraded_at(&mut self, err: String, at: String)
        ensures
            final(self).snapshot == old(self).snapshot,
            final(self).metadata.state == ServiceState::Degraded,
            final(self).metadata.last_error == Some(err),
            final(self).metadata.last_refresh_at == Some(at),
            final(self).metadata.snapshot_version == old(self).metadata.snapshot_version,
    {
        self.metadata.state = ServiceState::Degraded;
        self.metadata.last_error = Some(err);
        self.metadata.last_refresh_at = Some(at);
    }

    /// Records a refresh that found the snapshot unchanged.
    pub fn record_unchanged_refresh_at(&mut self, at: String)
        ensures
            final(self).snapshot == old(self).snapshot,
            final(self).metadata.state == ServiceState::Ready,
            final(self).metadata.last_refresh_at == Some(at),
            final(self).metadata.last_error is None,
            final(self).metadata.snapshot_version == old(self).metadata.snapshot_version,
    {
        self.metadata.state = ServiceState::Ready;
        self.metadata.last_refresh_at = Some(at);
        self.metadata.last_error = None;
    }

    /// Folds a fetched update into the state: a changed snapshot is put in use, an unchanged
    /// one only refreshes the marker.
    pub fn apply_update_at(&mut self, update: SnapshotUpdate, at: String)
        ensures
            update.changed ==> final(self).snapshot == Some(update.snapshot) && opt_view(
                final(self).metadata.snapshot_version,
            ) == Some(update.snapshot.version@),
            !update.changed ==> final(self).snapshot == old(self).snapshot
                && final(self).metadata.snapshot_version == old(self).metadata.snapshot_version,
            final(self).metadata.state == ServiceState::Ready,
            final(self).metadata.last_refresh_at == Some(at),
            final(self).metadata.last_error is None,
    {
        if update.changed {
            self.apply_snapshot_at(update.snapshot, at);
        } else {
            self.record_unchanged_refresh_at(at);
        }
    }

    /// The outcome of a refresh: a fetched snapshot, compared with the one in use and folded in;
    /// or the fetch error, which degrades the service and keeps the snapshot.
    pub fn refresh_with_at(&mut self, fetched: Result<RuntimeSnapshot, String>, at: String)
        ensures
            match fetched {
                Ok(s) => {
                    &&& spec_snapshot_changed(
                        match old(self).snapshot {
                            Some(c) => Some(c.version@),
                            None => None,
                        },
                        s.version@,
                    ) ==> final(self).snapshot == Some(s) && opt_view(
                        final(self).metadata.snapshot_version,
                    ) == Some(s.version@)
                    &&& !spec_snapshot_changed(
                        match old(self).snapshot {
                            Some(c) => Some(c.version@),
                            None => None,
                        },
                        s.version@,
                    ) ==> final(self).snapshot == old(self).snapshot
                        && final(self).metadata.snapshot_version == old(
                        self,
                    ).metadata.snapshot_version
                    &&& final(self).metadata.state == ServiceState::Ready
                    &&& final(self).metadata.last_error is None
                },
                Err(e) => {
                    &&& final(self).snapshot == old(self).snapshot
                    &&& final(self).metadata.state == ServiceState::Degraded
                    &&& final(self).metadata.last_error == Some(e)
                    &&& final(self).metadata.snapshot_version == old(self).metadata.snapshot_version
                },
            },
            final(self).metadata.last_refresh_at == Some(at),
    {
        match fetched {
            Ok(snapshot) => {
                let current = self.current_snapshot_version();
                let update = match &current {
                    Some(c) => make_update(Some(c.as_str()), snapshot),
                    None => make_update(None, snapshot),
                };
                self.apply_update_at(update, at);
            },
            Err(e) => {
                self.mark_degraded_at(e, at);
            },
        }
    }

    /// Marks the service failed now.
    pub fn mark_failed(&mut self, err: String)
        ensures
            final(self).snapshot == old(self).snapshot,
            final(self).metadata.state == ServiceState::Failed,
            final(self).metadata.last_error == Some(err),
            final(self).metadata.last_refresh_at matches Some(m) && exists|secs: u64|
                m@ == spec_marker(secs),
    {
        let at = now_timestamp_marker();
        self.mark_failed_at(err, at);
    }

    /// Puts a snapshot in use now.
    pub fn apply_snapshot(&mut self, snapshot: RuntimeSnapshot)
        ensures
            final(self).snapshot == Some(snapshot),
            final(self).metadata.state == ServiceState::Ready,
            opt_view(final(self).metadata.snapshot_version) == Some(snapshot.version@),
            final(self).metadata.last_error is None,
            final(self).metadata.last_refresh_at matches Some(m) && exists|secs: u64|
                m@ == spec_marker(secs),
    {
        let at = now_timestamp_marker();
        self.apply_snapshot_at(snapshot, at);
    }

    /// Marks the service degraded now, keeping the snapshot in use.
    pub fn mark_degraded(&mut self, err: String)
        ensures
            final(self).snapshot == old(self).snapshot,
            final(self).metadata.state == ServiceState::Degraded,
            final(self).metadata.last_error == Some(err),
            final(self).metadata.last_refresh_at matches Some(m) && exists|secs: u64|
                m@ == spec_marker(secs),
    {
        let at = now_timestamp_marker();
        self.mark_degraded_at(err, at);
    }

    /// Records now a refresh that found the snapshot unchanged.
    pub fn record_unchanged_refresh(&mut self)
        ensures
            final(self).snapshot == old(self).snapshot,
            final(self).metadata.state == ServiceState::Ready,
            final(self).metadata.last_error is None,
            final(self).metadata.last_refresh_at matches Some(m) && exists|secs: u64|
                m@ == spec_marker(secs),
    {
        let at = now_timestamp_marker();
        self.record_unchanged_refresh_at(at);
    }

    /// Folds a fetched update into the state now.
    pub fn apply_update(&mut self, update: SnapshotUpdate)
        ensures
            update.changed ==> final(self).snapshot == Some(update.snapshot),
            !update.changed ==> final(self).snapshot == old(self).snapshot,
            final(self).metadata.state == ServiceState::Ready,
            final(self).metadata.last_error is None,
    {
        let at = now_timestamp_marker();
        self.apply_update_at(update, at);
    }
}

fn copy_opt(o: &Option<String>) -> (r: Option<String>)
    ensures
        opt_view(r) == opt_view(*o),
{
    match o {
        Some(s) => Some(s.clone()),
        None => None,
    }
}

/// Whether the service is ready, as `/readyz` reports it.
pub fn is_ready(state: ServiceState) -> (r: bool)
    ensures
        r == (state == ServiceState::Ready),
{
    match state {
        ServiceState::Ready => true,
        _ => false,
    }
}

} // verus!
