//! Where the station keeps its files, and how older files are taken over.

use vstd::prelude::*;
use vstd::string::*;

use crate::text::{chars_of, same_text, split, starts_text, text_of};
use crate::text;

verus! {

/// A name below a folder.
pub open spec fn joined(folder: Seq<char>, name: Seq<char>) -> Seq<char> {
    if folder.len() == 0 {
        name
    } else if folder.last() == '/' {
        folder + name
    } else {
        folder + "/"@ + name
    }
}

/// A name below a folder.
pub fn join_path(folder: &str, name: &str) -> (r: String)
    ensures
        r@ == joined(folder@, name@),
{
    let v = chars_of(folder);
    let mut s = String::from_str(folder);
    if v.len() == 0 {
        return String::from_str(name);
    }
    if v[v.len() - 1] != '/' {
        s.append("/");
    }
    s.append(name);
    s
}

/// Well-known files.
#[derive(Debug, Clone, PartialEq, Eq)]
pub struct AppPaths {
    pub root: String,
    pub settings: String,
    pub database: String,
    /// Stays in the launch folder.
    pub license: String,
}

/// The folder that the arguments ask for.
pub open spec fn asked_for(args: Seq<Seq<char>>) -> Option<Seq<char>>
    decreases args.len(),
{
    if args.len() == 0 {
        None
    } else if args[0] == "--data-dir"@ {
        if args.len() > 1 {
            Some(args[1])
        } else {
            None
        }
    } else if text::begins(args[0], "--data-dir="@) {
        Some(args[0].skip("--data-dir="@.len() as int))
    } else {
        asked_for(args.drop_first())
    }
}

/// The folder that the arguments ask for, as `--data-dir <path>` or
/// `--data-dir=<path>`.
pub fn data_dir_override(args: &[String]) -> (r: Option<String>)
    ensures
        text::opt_text(r) == asked_for(text::texts(args@)),
{
    let ghost all = text::texts(args@);
    let mut i: usize = 0;
    assert(all.skip(0) =~= all);
    while i < args.len()
        invariant
            i <= args@.len(),
            all == text::texts(args@),
            asked_for(all) == asked_for(all.skip(i as int)),
        decreases args@.len() - i,
    {
        let ghost rest = all.skip(i as int);
        assert(rest[0] == args@[i as int]@);
        assert(rest.drop_first() =~= all.skip(i + 1));
        let a = args[i].as_str();
        if same_text(a, "--data-dir") {
            if i + 1 < args.len() {
                assert(rest[1] == args@[i + 1]@);
                return Some(args[i + 1].clone());
            }
            return None;
        }
        if starts_text(a, "--data-dir=") {
            let v = chars_of(a);
            let k = chars_of("--data-dir=");
            let t = text_of(vstd::slice::slice_subrange(v.as_slice(), k.len(), v.len()));
            assert(t@ =~= a@.skip("--data-dir="@.len() as int));
            return Some(t);
        }
        i = i + 1;
    }
    assert(all.skip(i as int) =~= Seq::empty());
    None
}

/// The usual folder: below the user's data folder, or else beside the launch
/// folder.
pub fn default_root(data_folder: Option<&str>, launch_folder: &str) -> (r: String)
    ensures
        r@ == (match data_folder {
            Some(d) => joined(d@, "CrabBoss"@),
            None => joined(launch_folder@, "CrabBoss-data"@),
        }),
{
    match data_folder {
        Some(d) => join_path(d, "CrabBoss"),
        None => join_path(launch_folder, "CrabBoss-data"),
    }
}

/// The well-known files below a folder.
pub open spec fn laid_out(p: AppPaths, root: Seq<char>, legacy: Seq<char>) -> bool {
    &&& p.root@ == root
    &&& p.settings@ == joined(root, "settings.json"@)
    &&& p.database@ == joined(root, "crabboss.db"@)
    &&& p.license@ == joined(legacy, "license.json"@)
}

/// Resolve the well-known files without touching any: the arguments decide,
/// and otherwise the usual folder.
pub fn resolve_from(args: &[String], legacy_dir: &str, usual_root: &str) -> (r: AppPaths)
    ensures
        laid_out(
            r,
            match asked_for(text::texts(args@)) {
                Some(d) => d,
                None => usual_root@,
            },
            legacy_dir@,
        ),
{
    let root = match data_dir_override(args) {
        Some(d) => d,
        None => String::from_str(usual_root),
    };
    AppPaths {
        settings: join_path(root.as_str(), "settings.json"),
        database: join_path(root.as_str(), "crabboss.db"),
        license: join_path(legacy_dir, "license.json"),
        root,
    }
}

/// The pieces of a path that count: no empty ones, and no `.` but at the very
/// start.
pub open spec fn counting(pieces: Seq<Seq<char>>) -> Seq<Seq<char>>
    decreases pieces.len(),
{
    if pieces.len() == 0 {
        Seq::empty()
    } else {
        let front = counting(pieces.drop_last());
        if pieces.last().len() == 0 || (pieces.last() == "."@ && pieces.len() > 1) {
            front
        } else {
            front.push(pieces.last())
        }
    }
}

/// A path is absolute.
pub open spec fn rooted(path: Seq<char>) -> bool {
    path.len() > 0 && path[0] == '/'
}

/// Two paths name the same file without looking at it.
pub open spec fn same_place(a: Seq<char>, b: Seq<char>) -> bool {
    rooted(a) == rooted(b) && counting(text::split_at(a, '/')) == counting(text::split_at(b, '/'))
}

/// The pieces of a path that count.
fn pieces_of(path: &str) -> (r: Vec<String>)
    ensures
        text::texts(r@) == counting(text::split_at(path@, '/')),
{
    let v = split(path, '/');
    let ghost all = text::split_at(path@, '/');
    let mut r: Vec<String> = Vec::new();
    let mut i: usize = 0;
    assert(all.subrange(0, 0) =~= Seq::empty());
    assert(text::texts(r@) =~= Seq::empty());
    while i < v.len()
        invariant
            i <= v@.len(),
            all == text::texts(v@),
            text::texts(r@) == counting(all.subrange(0, i as int)),
        decreases v@.len() - i,
    {
        let ghost before = text::texts(r@);
        assert(all.subrange(0, i + 1).drop_last() =~= all.subrange(0, i as int));
        assert(all.subrange(0, i + 1).last() == v@[i as int]@);
        let n: usize = chars_of(v[i].as_str()).len();
        if n > 0 && !(i > 0 && same_text(v[i].as_str(), ".")) {
            r.push(v[i].clone());
            assert(text::texts(r@) =~= before.push(v@[i as int]@));
        }
        i = i + 1;
    }
    assert(all.subrange(0, i as int) =~= all);
    r
}

/// Whether two paths name the same file, by their pieces alone: the files
/// need not be there.
pub fn same_file(a: &str, b: &str) -> (r: bool)
    ensures
        r == same_place(a@, b@),
{
    let x = chars_of(a);
    let y = chars_of(b);
    let x_rooted = x.len() > 0 && x[0] == '/';
    let y_rooted = y.len() > 0 && y[0] == '/';
    if x_rooted != y_rooted {
        return false;
    }
    let p = pieces_of(a);
    let q = pieces_of(b);
    let ghost ps = text::texts(p@);
    let ghost qs = text::texts(q@);
    if p.len() != q.len() {
        assert(ps.len() != qs.len());
        return false;
    }
    let mut i: usize = 0;
    while i < p.len()
        invariant
            i <= p@.len(),
            p@.len() == q@.len(),
            ps == text::texts(p@),
            qs == text::texts(q@),
            ps == counting(text::split_at(a@, '/')),
            qs == counting(text::split_at(b@, '/')),
            forall|j: int| 0 <= j < i ==> ps[j] == qs[j],
        decreases p@.len() - i,
    {
        if !same_text(p[i].as_str(), q[i].as_str()) {
            assert(ps[i as int] != qs[i as int]);
            return false;
        }
        i = i + 1;
    }
    assert(ps =~= qs);
    true
}

/// What is to be done about one older file.
#[derive(Debug, Clone, Copy, PartialEq, Eq, Structural)]
pub enum MigrationPlan {
    SkipExisting,
    SkipNoLegacy,
    Copy,
}

/// What is to be done about one older file.
pub open spec fn planned(same: bool, to_exists: bool, from_exists: bool) -> MigrationPlan {
    if same || to_exists {
        MigrationPlan::SkipExisting
    } else if !from_exists {
        MigrationPlan::SkipNoLegacy
    } else {
        MigrationPlan::Copy
    }
}

/// What to do about one older file: never copy a file onto itself, never over
/// one that is there, and only one that is there.
pub fn plan_migration(same: bool, to_exists: bool, from_exists: bool) -> (r: MigrationPlan)
    ensures
        r == planned(same, to_exists, from_exists),
{
    if same || to_exists {
        MigrationPlan::SkipExisting
    } else if !from_exists {
        MigrationPlan::SkipNoLegacy
    } else {
        MigrationPlan::Copy
    }
}

/// Outcome for one older file.
#[derive(Debug, Clone, PartialEq, Eq)]
pub enum FileMigration {
    /// There is a newer one, which wins.
    SkippedExisting,
    /// There is none.
    SkippedNoLegacy,
    /// Copied; the older one stays.
    Copied { from: String, to: String },
    Failed { from: String, error: String },
}

/// What came of a copy.
#[derive(Debug)]
pub enum CopyOutcome {
    /// The folder could not be made.
    NoFolder { folder: String, why: String },
    CopyFailed(String),
    Done,
}

/// The outcome for one older file, by its plan and, where it was copied, by
/// what came of that.
pub fn migrate_one(plan: MigrationPlan, from: &str, to: &str, copy: CopyOutcome) -> (r:
    FileMigration)
    ensures
        came_of(r, plan, from@, to@, copy),
{
    match plan {
        MigrationPlan::SkipExisting => FileMigration::SkippedExisting,
        MigrationPlan::SkipNoLegacy => FileMigration::SkippedNoLegacy,
        MigrationPlan::Copy => match copy {
            CopyOutcome::NoFolder { folder, why } => {
                let mut s = String::from_str("cannot create ");
                s.append(folder.as_str());
                s.append(": ");
                s.append(why.as_str());
                FileMigration::Failed { from: String::from_str(from), error: s }
            },
            CopyOutcome::CopyFailed(why) => {
                let mut s = String::from_str("copy failed: ");
                s.append(why.as_str());
                FileMigration::Failed { from: String::from_str(from), error: s }
            },
            CopyOutcome::Done => FileMigration::Copied {
                from: String::from_str(from),
                to: String::from_str(to),
            },
        },
    }
}

/// The files that travel with a database.
pub fn sidecars(base: &str) -> (r: Vec<String>)
    ensures
        text::texts(r@) == seq![base@ + "-wal"@, base@ + "-shm"@, base@ + "-journal"@],
{
    let mut a = String::from_str(base);
    a.append("-wal");
    let mut b = String::from_str(base);
    b.append("-shm");
    let mut c = String::from_str(base);
    c.append("-journal");
    let r = vec![a, b, c];
    assert(text::texts(r@) =~= seq![base@ + "-wal"@, base@ + "-shm"@, base@ + "-journal"@]);
    r
}

/// Outcome for the older files. The license is never taken over.
#[derive(Debug, Clone, PartialEq, Eq)]
pub struct MigrationReport {
    pub settings: FileMigration,
    pub database: FileMigration,
}

impl MigrationReport {
    /// Whether anything was copied.
    pub fn copied_any(&self) -> (r: bool)
        ensures
            r == (self.settings is Copied || self.database is Copied),
    {
        let a = match &self.settings {
            FileMigration::Copied { .. } => true,
            _ => false,
        };
        let b = match &self.database {
            FileMigration::Copied { .. } => true,
            _ => false,
        };
        a || b
    }
}

/// What was seen of one older file and of its new place before anything was
/// copied, and what came of the copy where one was made.
#[derive(Debug)]
pub struct Sighting {
    pub to_exists: bool,
    pub from_exists: bool,
    pub copy: CopyOutcome,
}

/// An outcome as a plan and a copy give it.
pub open spec fn came_of(
    r: FileMigration,
    plan: MigrationPlan,
    from: Seq<char>,
    to: Seq<char>,
    copy: CopyOutcome,
) -> bool {
    match plan {
        MigrationPlan::SkipExisting => r == FileMigration::SkippedExisting,
        MigrationPlan::SkipNoLegacy => r == FileMigration::SkippedNoLegacy,
        MigrationPlan::Copy => match copy {
            CopyOutcome::NoFolder { folder, why } => r matches FileMigration::Failed { from: f, error }
                && f@ == from && error@ == "cannot create "@ + folder@ + ": "@ + why@,
            CopyOutcome::CopyFailed(why) => r matches FileMigration::Failed { from: f, error } && f@
                == from && error@ == "copy failed: "@ + why@,
            CopyOutcome::Done => r matches FileMigration::Copied { from: f, to: t } && f@ == from
                && t@ == to,
        },
    }
}

impl AppPaths {
    /// What is to be done about the older settings and the older database in a
    /// folder, given whether the new and the old file is there.
    pub fn plan_legacy(
        &self,
        legacy_dir: &str,
        settings: (bool, bool),
        database: (bool, bool),
    ) -> (r: (MigrationPlan, MigrationPlan))
        ensures
            r.0 == planned(
                same_place(joined(legacy_dir@, "settings.json"@), self.settings@),
                settings.0,
                settings.1,
            ),
            r.1 == planned(
                same_place(joined(legacy_dir@, "crabboss.db"@), self.database@),
                database.0,
                database.1,
            ),
    {
        let old_settings = join_path(legacy_dir, "settings.json");
        let old_database = join_path(legacy_dir, "crabboss.db");
        (
            plan_migration(
                same_file(old_settings.as_str(), self.settings.as_str()),
                settings.0,
                settings.1,
            ),
            plan_migration(
                same_file(old_database.as_str(), self.database.as_str()),
                database.0,
                database.1,
            ),
        )
    }

    /// The report on taking over older files from a folder. A file is never
    /// copied onto itself.
    pub fn migrate_legacy(&self, legacy_dir: &str, settings: Sighting, database: Sighting) -> (r:
        MigrationReport)
        ensures
            came_of(
                r.settings,
                planned(
                    same_place(joined(legacy_dir@, "settings.json"@), self.settings@),
                    settings.to_exists,
                    settings.from_exists,
                ),
                joined(legacy_dir@, "settings.json"@),
                self.settings@,
                settings.copy,
            ),
            came_of(
                r.database,
                planned(
                    same_place(joined(legacy_dir@, "crabboss.db"@), self.database@),
                    database.to_exists,
                    database.from_exists,
                ),
                joined(legacy_dir@, "crabboss.db"@),
                self.database@,
                database.copy,
            ),
    {
        let (s, d) = self.plan_legacy(
            legacy_dir,
            (settings.to_exists, settings.from_exists),
            (database.to_exists, database.from_exists),
        );
        MigrationReport {
            settings: migrate_one(
                s,
                join_path(legacy_dir, "settings.json").as_str(),
                self.settings.as_str(),
                settings.copy,
            ),
            database: migrate_one(
                d,
                join_path(legacy_dir, "crabboss.db").as_str(),
                self.database.as_str(),
                database.copy,
            ),
        }
    }
}

/// A file that is there always wins: nothing is ever copied over it, so what
/// was copied once is left alone from then on, and a file is never copied onto
/// itself.
pub proof fn existing_files_win(from: Seq<char>, to: Seq<char>, to_exists: bool, from_exists: bool)
    ensures
        planned(same_place(from, to), true, from_exists) == MigrationPlan::SkipExisting,
        planned(same_place(to, to), to_exists, from_exists) == MigrationPlan::SkipExisting,
{
}

/// A file is copied over exactly where it lies in another place, there is
/// nothing yet where it should go, and there is one to copy.
pub proof fn files_are_copied_once(from: Seq<char>, to: Seq<char>, to_exists: bool, from_exists: bool)
    ensures
        planned(same_place(from, to), to_exists, from_exists) == MigrationPlan::Copy <==> !same_place(
            from,
            to,
        ) && !to_exists && from_exists,
        planned(same_place(from, to), to_exists, from_exists) == MigrationPlan::SkipNoLegacy
            <==> !same_place(from, to) && !to_exists && !from_exists,
{
}

/// A name is put behind its folder with one slash between them.
pub proof fn folders_hold_their_files(folder: Seq<char>, name: Seq<char>)
    ensures
        joined(Seq::empty(), name) == name,
        joined(folder.push('/'), name) == folder + seq!['/'] + name,
        folder.len() > 0 && folder.last() != '/' ==> joined(folder, name) == folder + seq!['/'] + name,
{
    reveal_strlit("/");
    assert("/"@ =~= seq!['/']);
    assert(folder.push('/') + name =~= folder + seq!['/'] + name);
}

/// The folder that is asked for is the one named by the first flag, in either
/// of its two forms; what stands before the flag does not matter, and neither
/// does what comes behind.
pub proof fn the_first_flag_counts(before: Seq<Seq<char>>, folder: Seq<char>, after: Seq<Seq<char>>)
    requires
        forall|i: int|
            0 <= i < before.len() ==> #[trigger] before[i] != "--data-dir"@ && !text::begins(
                before[i],
                "--data-dir="@,
            ),
    ensures
        asked_for(before + seq!["--data-dir"@, folder] + after) == Some(folder),
        asked_for(before + seq!["--data-dir="@ + folder] + after) == Some(folder),
        asked_for(before) is None,
        asked_for(before.push("--data-dir"@)) is None,
    decreases before.len(),
{
    reveal_strlit("--data-dir");
    reveal_strlit("--data-dir=");
    let flag = "--data-dir="@ + folder;
    let a = before + seq!["--data-dir"@, folder] + after;
    let b = before + seq![flag] + after;
    let c = before.push("--data-dir"@);
    if before.len() > 0 {
        let rest = before.drop_first();
        assert forall|i: int| 0 <= i < rest.len() implies #[trigger] rest[i] != "--data-dir"@
            && !text::begins(rest[i], "--data-dir="@) by {
            assert(rest[i] == before[i + 1]);
        }
        the_first_flag_counts(rest, folder, after);
        assert(before[0] != "--data-dir"@);
        assert(a.drop_first() =~= rest + seq!["--data-dir"@, folder] + after);
        assert(b.drop_first() =~= rest + seq![flag] + after);
        assert(c.drop_first() =~= rest.push("--data-dir"@));
        assert(a[0] == before[0] && b[0] == before[0] && c[0] == before[0]);
    } else {
        assert(a[0] == "--data-dir"@ && a[1] == folder);
        assert(b[0] == flag);
        assert(flag.len() >= 11 && "--data-dir"@.len() == 10);
        assert(flag.subrange(0, 11) =~= "--data-dir="@);
        assert(flag.skip(11) =~= folder);
        assert(c[0] == "--data-dir"@ && c.len() == 1);
    }
}

/// A slash at the end of a path leads to the same place.
pub proof fn a_slash_at_the_end_changes_nothing(path: Seq<char>)
    requires
        path.len() > 0,
    ensures
        same_place(path.push('/'), path),
        same_place(path, path),
{
    let s = text::split_at(path, '/');
    assert(path.push('/').drop_last() =~= path);
    assert(s.push(Seq::empty()).drop_last() =~= s);
}

proof fn lemma_counting(pieces: Seq<Seq<char>>)
    requires
        forall|i: int| 0 <= i < pieces.len() ==> (#[trigger] pieces[i]).len() > 0 && pieces[i] != "."@,
    ensures
        counting(pieces) == pieces,
    decreases pieces.len(),
{
    if pieces.len() > 0 {
        let front = pieces.drop_last();
        assert forall|i: int| 0 <= i < front.len() implies (#[trigger] front[i]).len() > 0 && front[i]
            != "."@ by {
            assert(front[i] == pieces[i]);
        }
        lemma_counting(front);
        assert(pieces[pieces.len() - 1] == pieces.last());
        assert(front.push(pieces.last()) =~= pieces);
    } else {
        assert(counting(pieces) =~= pieces);
    }
}

/// Plain paths lead to one place exactly where they have the same names in the
/// same order.
pub proof fn places_differ_by_their_names(a: Seq<Seq<char>>, b: Seq<Seq<char>>)
    requires
        a.len() > 0,
        b.len() > 0,
        forall|i: int|
            0 <= i < a.len() ==> (#[trigger] a[i]).len() > 0 && a[i] != "."@ && !a[i].contains('/'),
        forall|i: int|
            0 <= i < b.len() ==> (#[trigger] b[i]).len() > 0 && b[i] != "."@ && !b[i].contains('/'),
    ensures
        same_place(text::join(a, seq!['/']), text::join(b, seq!['/'])) <==> a == b,
        !same_place(text::join(a, seq!['/']), seq!['/'] + text::join(b, seq!['/'])),
{
    text::joining_keeps_the_pieces(a, '/');
    text::joining_keeps_the_pieces(b, '/');
    lemma_counting(a);
    lemma_counting(b);
    lemma_not_rooted(a);
    lemma_not_rooted(b);
}

proof fn lemma_not_rooted(a: Seq<Seq<char>>)
    requires
        a.len() > 0,
        forall|i: int| 0 <= i < a.len() ==> (#[trigger] a[i]).len() > 0 && !a[i].contains('/'),
    ensures
        !rooted(text::join(a, seq!['/'])),
        text::join(a, seq!['/']).len() > 0,
    decreases a.len(),
{
    let s = text::join(a, seq!['/']);
    if a.len() == 1 {
        assert(s == a[0]) by {
            assert(a.last() == a[0]);
        }
        assert(a[0].contains(a[0][0]));
    } else {
        let front = a.drop_last();
        assert forall|i: int| 0 <= i < front.len() implies (#[trigger] front[i]).len() > 0
            && !front[i].contains('/') by {
            assert(front[i] == a[i]);
        }
        lemma_not_rooted(front);
        assert(s[0] == text::join(front, seq!['/'])[0]);
    }
}

/// The settings and the database lie in the data folder, and the license in the
/// folder that the program was started from.
pub proof fn files_have_their_folders(p: AppPaths, root: Seq<char>, legacy: Seq<char>)
    requires
        laid_out(p, root, legacy),
        root.len() > 0,
        root.last() != '/',
        legacy.len() > 0,
        legacy.last() != '/',
    ensures
        p.root@ == root,
        p.settings@ == root + seq!['/'] + "settings.json"@,
        p.database@ == root + seq!['/'] + "crabboss.db"@,
        p.license@ == legacy + seq!['/'] + "license.json"@,
{
    reveal_strlit("/");
    assert("/"@ =~= seq!['/']);
}

} // verus!
