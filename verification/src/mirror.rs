use vstd::prelude::*;
use vstd::string::*;

verus! {

/// `t`, in nanoseconds since the UNIX epoch, is a time the system clock can
/// give (whole seconds within `i64`).
pub open spec fn system_time(t: i128) -> bool {
    -9_223_372_036_854_775_808_000_000_000 <= t <= 9_223_372_036_854_775_807_999_999_999
}

/// Whole seconds elapsed from `t` to `now`; none where `t` lies ahead.
pub open spec fn elapsed_secs(now: int, t: int) -> int {
    if now >= t {
        (now - t) / 1_000_000_000
    } else {
        0
    }
}

/// The state of the job that keeps the database in step with the mirrored
/// dump of the central database: the modification time of the last dump
/// that was imported, if any (nanoseconds since the UNIX epoch).
pub struct MirrorSync {
    pub last_update: Option<i128>,
}

/// A dump modified at `modified` is newer than what `last_update` imported.
pub open spec fn newer(last_update: Option<i128>, modified: i128) -> bool {
    match last_update {
        None => true,
        Some(t) => modified > t,
    }
}

impl MirrorSync {
    /// The times held are clock times.
    pub open spec fn wf(&self) -> bool {
        self.last_update matches Some(t) ==> system_time(t)
    }

    /// Nothing imported yet.
    pub fn new() -> (s: Self)
        ensures
            s.last_update is None,
            s.wf(),
    {
        MirrorSync { last_update: None }
    }

    /// On a tick at `now`: the dump is looked at when it exists and either
    /// nothing was imported yet or more than 60 whole seconds have passed
    /// since the modification time of the last import.
    pub fn due(&self, file_exists: bool, now: i128) -> (r: bool)
        requires
            self.wf(),
            system_time(now),
        ensures
            r == (file_exists && match self.last_update {
                None => true,
                Some(t) => elapsed_secs(now as int, t as int) > 60,
            }),
    {
        if !file_exists {
            return false;
        }
        match self.last_update {
            None => true,
            Some(t) => {
                if now >= t {
                    now - t >= 61_000_000_000
                } else {
                    false
                }
            },
        }
    }

    /// The dump modified at `modified` is imported only when it is newer
    /// than the last import.
    pub fn is_newer(&self, modified: i128) -> (r: bool)
        ensures
            r == newer(self.last_update, modified),
    {
        match self.last_update {
            None => true,
            Some(t) => modified > t,
        }
    }

    /// After an import attempt of the dump modified at `modified`, which is
    /// only attempted for a dump newer than the last import: a successful
    /// import becomes the last one; a failed one changes nothing. So the last
    /// import time never returns to none and only moves forward.
    pub fn record_import(&mut self, modified: i128, imported: bool)
        requires
            old(self).wf(),
            system_time(modified),
            newer(old(self).last_update, modified),
        ensures
            final(self).wf(),
            final(self).last_update == (if imported {
                Some(modified)
            } else {
                old(self).last_update
            }),
            advances(old(self).last_update, final(self).last_update),
    {
        if imported {
            self.last_update = Some(modified);
        }
    }
}

/// The last import time goes from `a` to `b` without going back: once set
/// it stays set, and it never moves to an earlier time.
pub open spec fn advances(a: Option<i128>, b: Option<i128>) -> bool {
    match a {
        None => true,
        Some(t) => b matches Some(u) && t <= u,
    }
}

/// More than 60 whole seconds have passed exactly when at least 61 seconds
/// have passed; a modification time ahead of the clock counts as no time.
pub proof fn lemma_elapsed_rules(now: int, t: int)
    ensures
        elapsed_secs(now, t) > 60 <==> now - t >= 61_000_000_000,
        now <= t ==> elapsed_secs(now, t) == 0,
{
}

/// A dump that was imported is not imported again, and an import of a newer
/// dump moves the last modification time strictly forward.
pub proof fn lemma_import_once(last_update: Option<i128>, modified: i128)
    ensures
        !newer(Some(modified), modified),
        newer(last_update, modified) ==> (last_update matches Some(t) ==> t < modified),
{
}

/// Over any run of recorded imports the last import time never goes back:
/// [`advances`] is transitive, so every later value is at or after every
/// earlier one.
pub proof fn lemma_advances_transitive(a: Option<i128>, b: Option<i128>, c: Option<i128>)
    requires
        advances(a, b),
        advances(b, c),
    ensures
        advances(a, c),
{
}

/// The statements of an import, run in turn on one connection.
#[derive(Clone, Copy, Debug)]
pub enum ImportPhase {
    /// Load the dump into a fresh table and put it in place of the old one.
    Load,
    /// Undo a failed load.
    Rollback,
    /// Tidy the new table.
    Vacuum,
}

/// What to do next in an import.
pub enum ImportAction {
    Run(ImportPhase),
    /// The import ended; whether it succeeded.
    Finish(bool),
}

/// An import starts by loading the dump.
pub fn start_import() -> (a: ImportAction)
    ensures
        a == ImportAction::Run(ImportPhase::Load),
{
    ImportAction::Run(ImportPhase::Load)
}

/// What follows a phase: a successful load is vacuumed, a failed one rolled
/// back; the import succeeds exactly when the vacuum succeeds.
pub fn after_phase(phase: ImportPhase, succeeded: bool) -> (a: ImportAction)
    ensures
        a == (match phase {
            ImportPhase::Load => if succeeded {
                ImportAction::Run(ImportPhase::Vacuum)
            } else {
                ImportAction::Run(ImportPhase::Rollback)
            },
            ImportPhase::Rollback => ImportAction::Finish(false),
            ImportPhase::Vacuum => ImportAction::Finish(succeeded),
        }),
{
    match phase {
        ImportPhase::Load => if succeeded {
            ImportAction::Run(ImportPhase::Vacuum)
        } else {
            ImportAction::Run(ImportPhase::Rollback)
        },
        ImportPhase::Rollback => ImportAction::Finish(false),
        ImportPhase::Vacuum => ImportAction::Finish(succeeded),
    }
}

/// The SQL of the load.
pub open spec fn load_sql() -> Seq<char> {
    "BEGIN; DROP TABLE IF EXISTS \"sponsorTimesTemp\"; CREATE UNLOGGED TABLE \"sponsorTimesTemp\"(LIKE \"sponsorTimes\" INCLUDING defaults INCLUDING constraints INCLUDING indexes); COPY \"sponsorTimesTemp\" FROM '/mirror/sponsorTimes.csv' DELIMITER ',' CSV HEADER; DROP TABLE \"sponsorTimes\"; ALTER TABLE \"sponsorTimesTemp\" RENAME TO \"sponsorTimes\"; COMMIT;"@
}

/// The load is one transaction that prepares a fresh table, copies the dump
/// `/mirror/sponsorTimes.csv` into it, and then puts it in place of the
/// served table `sponsorTimes` (dropping the old one and renaming the new),
/// so that after a successful load the served table holds the dump.
pub proof fn lemma_load_swaps_in_dump()
    ensures
        load_sql() == "BEGIN; "@
            + "DROP TABLE IF EXISTS \"sponsorTimesTemp\"; CREATE UNLOGGED TABLE \"sponsorTimesTemp\"(LIKE \"sponsorTimes\" INCLUDING defaults INCLUDING constraints INCLUDING indexes); "@
            + "COPY \"sponsorTimesTemp\" FROM '/mirror/sponsorTimes.csv' DELIMITER ',' CSV HEADER; "@
            + "DROP TABLE \"sponsorTimes\"; ALTER TABLE \"sponsorTimesTemp\" RENAME TO \"sponsorTimes\"; "@
            + "COMMIT;"@,
{
    reveal_strlit("BEGIN; DROP TABLE IF EXISTS \"sponsorTimesTemp\"; CREATE UNLOGGED TABLE \"sponsorTimesTemp\"(LIKE \"sponsorTimes\" INCLUDING defaults INCLUDING constraints INCLUDING indexes); COPY \"sponsorTimesTemp\" FROM '/mirror/sponsorTimes.csv' DELIMITER ',' CSV HEADER; DROP TABLE \"sponsorTimes\"; ALTER TABLE \"sponsorTimesTemp\" RENAME TO \"sponsorTimes\"; COMMIT;");
    reveal_strlit("BEGIN; ");
    reveal_strlit("DROP TABLE IF EXISTS \"sponsorTimesTemp\"; CREATE UNLOGGED TABLE \"sponsorTimesTemp\"(LIKE \"sponsorTimes\" INCLUDING defaults INCLUDING constraints INCLUDING indexes); ");
    reveal_strlit("COPY \"sponsorTimesTemp\" FROM '/mirror/sponsorTimes.csv' DELIMITER ',' CSV HEADER; ");
    reveal_strlit("DROP TABLE \"sponsorTimes\"; ALTER TABLE \"sponsorTimesTemp\" RENAME TO \"sponsorTimes\"; ");
    reveal_strlit("COMMIT;");
    assert(load_sql() =~= "BEGIN; "@
        + "DROP TABLE IF EXISTS \"sponsorTimesTemp\"; CREATE UNLOGGED TABLE \"sponsorTimesTemp\"(LIKE \"sponsorTimes\" INCLUDING defaults INCLUDING constraints INCLUDING indexes); "@
        + "COPY \"sponsorTimesTemp\" FROM '/mirror/sponsorTimes.csv' DELIMITER ',' CSV HEADER; "@
        + "DROP TABLE \"sponsorTimes\"; ALTER TABLE \"sponsorTimesTemp\" RENAME TO \"sponsorTimes\"; "@
        + "COMMIT;"@);
}

/// The SQL run in a phase.
pub fn phase_sql(phase: ImportPhase) -> (s: String)
    ensures
        s@ == (match phase {
            ImportPhase::Load => load_sql(),
            ImportPhase::Rollback => "ROLLBACK;"@,
            ImportPhase::Vacuum => "VACUUM \"sponsorTimes\";"@,
        }),
{
    match phase {
        ImportPhase::Load => String::from_str(
            "BEGIN; DROP TABLE IF EXISTS \"sponsorTimesTemp\"; CREATE UNLOGGED TABLE \"sponsorTimesTemp\"(LIKE \"sponsorTimes\" INCLUDING defaults INCLUDING constraints INCLUDING indexes); COPY \"sponsorTimesTemp\" FROM '/mirror/sponsorTimes.csv' DELIMITER ',' CSV HEADER; DROP TABLE \"sponsorTimes\"; ALTER TABLE \"sponsorTimesTemp\" RENAME TO \"sponsorTimes\"; COMMIT;",
        ),
        ImportPhase::Rollback => String::from_str("ROLLBACK;"),
        ImportPhase::Vacuum => String::from_str("VACUUM \"sponsorTimes\";"),
    }
}

} // verus!
