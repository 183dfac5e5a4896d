//! The persisted installation record: which packages were installed, which
//! services enabled, whether configs were deployed, when the record last
//! changed, and the backups taken. Membership is order-preserving and
//! de-duplicated; timestamps are Unix seconds.

use vstd::prelude::*;

verus! {

/// One recorded backup.
#[derive(Debug)]
pub struct BackupInfo {
    pub path: String,
    pub timestamp: i64,
    pub size_bytes: u64,
}

/// The persisted record of a session's installation progress.
#[derive(Debug)]
pub struct InstallState {
    pub installed_packages: Vec<String>,
    pub deployed_configs: bool,
    pub enabled_services: Vec<String>,
    pub last_update: i64,
    pub backups: Vec<BackupInfo>,
}

/// The mathematical value of a `BackupInfo`.
#[verifier::ext_equal]
pub ghost struct BackupView {
    pub path: Seq<char>,
    pub timestamp: int,
    pub size_bytes: u64,
}

/// The mathematical value of an `InstallState`.
#[verifier::ext_equal]
pub ghost struct StateView {
    pub installed_packages: Seq<Seq<char>>,
    pub deployed_configs: bool,
    pub enabled_services: Seq<Seq<char>>,
    pub last_update: int,
    pub backups: Seq<BackupView>,
}

impl View for BackupInfo {
    type V = BackupView;

    open spec fn view(&self) -> BackupView {
        BackupView {
            path: self.path@,
            timestamp: self.timestamp as int,
            size_bytes: self.size_bytes,
        }
    }
}

impl View for InstallState {
    type V = StateView;

    open spec fn view(&self) -> StateView {
        StateView {
            installed_packages: self.installed_packages.deep_view(),
            deployed_configs: self.deployed_configs,
            enabled_services: self.enabled_services.deep_view(),
            last_update: self.last_update as int,
            backups: Seq::new(self.backups@.len(), |i: int| self.backups@[i]@),
        }
    }
}

/// Adds `x` to an order-preserving, de-duplicated membership list: appended
/// at the end when absent, the list unchanged when already present.
pub open spec fn spec_add_entry(xs: Seq<Seq<char>>, x: Seq<char>) -> Seq<Seq<char>> {
    if xs.contains(x) {
        xs
    } else {
        xs.push(x)
    }
}

/// The record after `add_package` with value `p` at time `t`.
pub open spec fn spec_add_package(s: StateView, p: Seq<char>, t: int) -> StateView {
    StateView {
        installed_packages: spec_add_entry(s.installed_packages, p),
        deployed_configs: s.deployed_configs,
        enabled_services: s.enabled_services,
        last_update: t,
        backups: s.backups,
    }
}

/// The record after `add_service` with value `p` at time `t`.
pub open spec fn spec_add_service(s: StateView, p: Seq<char>, t: int) -> StateView {
    StateView {
        installed_packages: s.installed_packages,
        deployed_configs: s.deployed_configs,
        enabled_services: spec_add_entry(s.enabled_services, p),
        last_update: t,
        backups: s.backups,
    }
}

/// A default record: everything empty, configs not deployed, last touched
/// at time `t`.
pub open spec fn spec_default_state(t: int) -> StateView {
    StateView {
        installed_packages: Seq::empty(),
        deployed_configs: false,
        enabled_services: Seq::empty(),
        last_update: t,
        backups: Seq::empty(),
    }
}

/// Relies on chrono::Utc::now: the current wall-clock time as Unix seconds.
/// Nothing is promised of the value.
#[verifier::external_body]
pub fn now_timestamp() -> i64 {
    chrono::Utc::now().timestamp()
}

/// A failure of the state store.
#[derive(Clone, Copy, PartialEq, Eq, Structural, Debug)]
pub enum StateError {
    /// The persisted file exists but does not hold a well-formed record.
    CorruptState,
    /// The configuration directory could not be resolved, or the file
    /// could not be read or written.
    IoError,
}

/// Whether `v` holds a string equal to `x`.
fn vec_contains_string(v: &Vec<String>, x: &String) -> (r: bool)
    ensures
        r == v.deep_view().contains(x@),
{
    let mut i: usize = 0;
    while i < v.len()
        invariant
            i <= v@.len(),
            forall|k: int| 0 <= k < i ==> v.deep_view()[k] != x@,
        decreases v@.len() - i,
    {
        let hit = v[i].eq(x);
        proof {
            assert(v.deep_view()[i as int] == v@[i as int]@);
        }
        if hit {
            return true;
        }
        i = i + 1;
    }
    assert(forall|k: int| 0 <= k < v.deep_view().len() ==> v.deep_view()[k] != x@);
    false
}

impl InstallState {
    /// A fresh record stamped with time `t`.
    pub fn default_at(t: i64) -> (r: InstallState)
        ensures
            r@ == spec_default_state(t as int),
    {
        let r = InstallState {
            installed_packages: Vec::new(),
            deployed_configs: false,
            enabled_services: Vec::new(),
            last_update: t,
            backups: Vec::new(),
        };
        proof {
            assert(r@ =~= spec_default_state(t as int));
        }
        r
    }

    /// Records `package` as installed at time `timestamp`: appends it unless
    /// it is already present, and stamps the record either way.
    pub fn add_package_at(&mut self, package: String, timestamp: i64)
        ensures
            final(self)@ == spec_add_package(old(self)@, package@, timestamp as int),
    {
        if !vec_contains_string(&self.installed_packages, &package) {
            self.installed_packages.push(package);
        }
        self.last_update = timestamp;
        proof {
            assert(self@ =~= spec_add_package(old(self)@, package@, timestamp as int));
        }
    }

    /// Records `package` as installed now: `add_package_at` at the current
    /// wall-clock time, which the record's stamp is taken from.
    pub fn add_package(&mut self, package: String)
        ensures
            final(self)@ == spec_add_package(old(self)@, package@, final(self)@.last_update),
    {
        let t = now_timestamp();
        self.add_package_at(package, t);
    }

    /// Records `service` as enabled at time `timestamp`: appends it unless
    /// it is already present, and stamps the record either way.
    pub fn add_service_at(&mut self, service: String, timestamp: i64)
        ensures
            final(self)@ == spec_add_service(old(self)@, service@, timestamp as int),
    {
        if !vec_contains_string(&self.enabled_services, &service) {
            self.enabled_services.push(service);
        }
        self.last_update = timestamp;
        proof {
            assert(self@ =~= spec_add_service(old(self)@, service@, timestamp as int));
        }
    }

    /// Records `service` as enabled now, stamping the record with the
    /// current wall-clock time.
    pub fn add_service(&mut self, service: String)
        ensures
            final(self)@ == spec_add_service(old(self)@, service@, final(self)@.last_update),
    {
        let t = now_timestamp();
        self.add_service_at(service, t);
    }

    /// Appends a backup record at time `timestamp`; backups are not
    /// de-duplicated.
    pub fn add_backup_at(&mut self, backup: BackupInfo, timestamp: i64)
        ensures
            final(self)@.backups == old(self)@.backups.push(backup@),
            final(self)@.installed_packages == old(self)@.installed_packages,
            final(self)@.enabled_services == old(self)@.enabled_services,
            final(self)@.deployed_configs == old(self)@.deployed_configs,
            final(self)@.last_update == timestamp as int,
    {
        self.backups.push(backup);
        self.last_update = timestamp;
        proof {
            assert(self@.backups =~= old(self)@.backups.push(self.backups@[
                self.backups@.len() - 1
            ]@));
        }
    }

    /// Appends a backup record, stamping the record with the current
    /// wall-clock time.
    pub fn add_backup(&mut self, backup: BackupInfo)
        ensures
            final(self)@.backups == old(self)@.backups.push(backup@),
            final(self)@.installed_packages == old(self)@.installed_packages,
            final(self)@.enabled_services == old(self)@.enabled_services,
            final(self)@.deployed_configs == old(self)@.deployed_configs,
    {
        let t = now_timestamp();
        self.add_backup_at(backup, t);
    }
}

impl Default for InstallState {
    /// A fresh record: everything empty, configs not deployed, stamped with
    /// the current wall-clock time.
    fn default() -> (r: InstallState)
        ensures
            r@ == spec_default_state(r@.last_update),
    {
        let t = now_timestamp();
        InstallState::default_at(t)
    }
}

/// Adding a value already obtained by adding is absorbed: the membership
/// list after adding `x` twice equals the list after adding it once.
pub proof fn lemma_add_entry_idempotent(xs: Seq<Seq<char>>, x: Seq<char>)
    ensures
        spec_add_entry(spec_add_entry(xs, x), x) == spec_add_entry(xs, x),
{
    if !xs.contains(x) {
        assert(xs.push(x)[xs.len() as int] == x);
        assert(spec_add_entry(xs, x).contains(x));
    }
}

/// `add_package` is idempotent up to the stamp: adding the same package
/// twice yields the same record as adding it once, with the stamp of the
/// most recent call.
pub proof fn lemma_add_package_idempotent(s: StateView, p: Seq<char>, t1: int, t2: int)
    ensures
        spec_add_package(spec_add_package(s, p, t1), p, t2) == spec_add_package(s, p, t2),
{
    lemma_add_entry_idempotent(s.installed_packages, p);
    assert(spec_add_package(spec_add_package(s, p, t1), p, t2) =~= spec_add_package(s, p, t2));
}

/// `add_service` is idempotent up to the stamp, as `add_package` is.
pub proof fn lemma_add_service_idempotent(s: StateView, p: Seq<char>, t1: int, t2: int)
    ensures
        spec_add_service(spec_add_service(s, p, t1), p, t2) == spec_add_service(s, p, t2),
{
    lemma_add_entry_idempotent(s.enabled_services, p);
    assert(spec_add_service(spec_add_service(s, p, t1), p, t2) =~= spec_add_service(s, p, t2));
}

} // verus!
