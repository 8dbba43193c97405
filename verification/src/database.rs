//! The decisions of the verse database: the order of the statements that set
//! it up, seed it and migrate old files, as a machine that a driver feeds
//! with the database's replies; and the choice of a random verse.
use vstd::prelude::*;
use crate::random::random_below;

verus! {

/// A Bible version whose verses the tool ships.
#[derive(Clone, Copy, Debug, PartialEq, Eq, Structural)]
pub enum Edition {
    /// The Chinese Union Version, 和合本.
    Cuv,
    /// The New International Version.
    Niv,
}

/// The name under which the verses of an edition are stored.
pub open spec fn edition_label(e: Edition) -> Seq<char> {
    match e {
        Edition::Cuv => "和合本"@,
        Edition::Niv => "NIV"@,
    }
}

impl Edition {
    /// The name under which the verses of this edition are stored.
    pub fn label(&self) -> (l: &'static str)
        ensures
            l@ == edition_label(*self),
    {
        match self {
            Edition::Cuv => "和合本",
            Edition::Niv => "NIV",
        }
    }
}

/// What the driver is asked to do next.
#[derive(Debug)]
pub enum DbRequest {
    /// Create the verse table, with unique verse texts, if it is missing.
    CreateScripturesTable,
    /// Count the unique indexes of the verse table.
    CountUniqueIndexes,
    /// Rebuild the verse table so that verse texts are unique, keeping its rows.
    RebuildWithUniqueContent,
    /// Create the favourites table if it is missing.
    CreateFavoritesTable,
    /// Count the stored verses of an edition.
    CountVerses(Edition),
    /// Insert verse `i` of the edition's shipped list, unless its text is stored.
    InsertVerse(Edition, usize),
    /// The setup is over, with this outcome; report it.
    Finish(Result<String, String>),
    /// Nothing is left to do.
    Stopped,
}

/// The database's reply to the last request.
#[derive(Debug)]
pub enum DbReply {
    /// The statement ran.
    Done,
    /// The statement or query failed with this message.
    Failed(String),
    /// The count that a counting query gave, when it gave one.
    Count(Option<i64>),
}

/// Which request is outstanding.
#[derive(Clone, Copy, Debug, PartialEq, Eq, Structural)]
pub enum InitPhase {
    CreatingScriptures,
    CountingUnique,
    Rebuilding,
    CreatingFavorites,
    Counting(Edition),
    Seeding(Edition, usize),
    Finished,
}

/// A request as plain values.
pub enum RequestView {
    CreateScripturesTable,
    CountUniqueIndexes,
    RebuildWithUniqueContent,
    CreateFavoritesTable,
    CountVerses(Edition),
    InsertVerse(Edition, int),
    Finish(Result<Seq<char>, Seq<char>>),
    Stopped,
}

/// A reply as plain values.
pub enum ReplyView {
    Done,
    Failed(Seq<char>),
    Count(Option<i64>),
}

pub open spec fn request_view(r: DbRequest) -> RequestView {
    match r {
        DbRequest::CreateScripturesTable => RequestView::CreateScripturesTable,
        DbRequest::CountUniqueIndexes => RequestView::CountUniqueIndexes,
        DbRequest::RebuildWithUniqueContent => RequestView::RebuildWithUniqueContent,
        DbRequest::CreateFavoritesTable => RequestView::CreateFavoritesTable,
        DbRequest::CountVerses(e) => RequestView::CountVerses(e),
        DbRequest::InsertVerse(e, i) => RequestView::InsertVerse(e, i as int),
        DbRequest::Finish(Ok(m)) => RequestView::Finish(Ok(m@)),
        DbRequest::Finish(Err(m)) => RequestView::Finish(Err(m@)),
        DbRequest::Stopped => RequestView::Stopped,
    }
}

pub open spec fn reply_view(r: DbReply) -> ReplyView {
    match r {
        DbReply::Done => ReplyView::Done,
        DbReply::Failed(e) => ReplyView::Failed(e@),
        DbReply::Count(c) => ReplyView::Count(c),
    }
}

/// The statement that creates the verse table, if it is missing.
pub open spec fn create_scriptures_sql() -> Seq<char> {
    "CREATE TABLE IF NOT EXISTS scriptures (\n            id INTEGER PRIMARY KEY,\n            content TEXT NOT NULL UNIQUE,\n            reference TEXT NOT NULL,\n            version TEXT DEFAULT '和合本'\n        )"@
}

/// The query that counts the unique indexes of the verse table.
pub open spec fn count_unique_sql() -> Seq<char> {
    "SELECT COUNT(*) FROM pragma_index_list('scriptures') WHERE unique = 1"@
}

/// The statements that rebuild the verse table with unique verse texts,
/// keeping its rows.
pub open spec fn rebuild_sql() -> Seq<char> {
    "CREATE TABLE scriptures_new (\n                id INTEGER PRIMARY KEY,\n                content TEXT NOT NULL UNIQUE,\n                reference TEXT NOT NULL,\n                version TEXT DEFAULT '和合本'\n            );\n            INSERT OR IGNORE INTO scriptures_new SELECT * FROM scriptures;\n            DROP TABLE scriptures;\n            ALTER TABLE scriptures_new RENAME TO scriptures;"@
}

/// The statement that creates the favourites table, if it is missing.
pub open spec fn create_favorites_sql() -> Seq<char> {
    "CREATE TABLE IF NOT EXISTS favorites (\n            id INTEGER PRIMARY KEY,\n            content TEXT NOT NULL,\n            reference TEXT NOT NULL,\n            image_path TEXT NOT NULL,\n            created_at TEXT NOT NULL\n        )"@
}

/// The query that counts the stored verses of an edition.
pub open spec fn count_verses_sql(e: Edition) -> Seq<char> {
    match e {
        Edition::Cuv => "SELECT COUNT(*) FROM scriptures WHERE version = '和合本'"@,
        Edition::Niv => "SELECT COUNT(*) FROM scriptures WHERE version = 'NIV'"@,
    }
}

/// The statement that inserts a verse of an edition, its text bound to `?1`
/// and its reference to `?2`, unless its text is stored.
pub open spec fn insert_verse_sql(e: Edition) -> Seq<char> {
    match e {
        Edition::Cuv => "INSERT OR IGNORE INTO scriptures (content, reference, version) VALUES (?1, ?2, '和合本')"@,
        Edition::Niv => "INSERT OR IGNORE INTO scriptures (content, reference, version) VALUES (?1, ?2, 'NIV')"@,
    }
}

/// The SQL text of a request, for the requests that the database runs.
pub open spec fn request_sql(r: RequestView) -> Option<Seq<char>> {
    match r {
        RequestView::CreateScripturesTable => Some(create_scriptures_sql()),
        RequestView::CountUniqueIndexes => Some(count_unique_sql()),
        RequestView::RebuildWithUniqueContent => Some(rebuild_sql()),
        RequestView::CreateFavoritesTable => Some(create_favorites_sql()),
        RequestView::CountVerses(e) => Some(count_verses_sql(e)),
        RequestView::InsertVerse(e, _) => Some(insert_verse_sql(e)),
        RequestView::Finish(_) => None,
        RequestView::Stopped => None,
    }
}

impl DbRequest {
    /// The SQL text that the database runs for this request; `None` for the
    /// requests that end the setup.
    pub fn sql(&self) -> (s: Option<&'static str>)
        ensures
            match s {
                Some(t) => request_sql(request_view(*self)) == Some(t@),
                None => request_sql(request_view(*self)) is None,
            },
    {
        match self {
            DbRequest::CreateScripturesTable => Some(
                "CREATE TABLE IF NOT EXISTS scriptures (\n            id INTEGER PRIMARY KEY,\n            content TEXT NOT NULL UNIQUE,\n            reference TEXT NOT NULL,\n            version TEXT DEFAULT '和合本'\n        )",
            ),
            DbRequest::CountUniqueIndexes => Some("SELECT COUNT(*) FROM pragma_index_list('scriptures') WHERE unique = 1"),
            DbRequest::RebuildWithUniqueContent => Some(
                "CREATE TABLE scriptures_new (\n                id INTEGER PRIMARY KEY,\n                content TEXT NOT NULL UNIQUE,\n                reference TEXT NOT NULL,\n                version TEXT DEFAULT '和合本'\n            );\n            INSERT OR IGNORE INTO scriptures_new SELECT * FROM scriptures;\n            DROP TABLE scriptures;\n            ALTER TABLE scriptures_new RENAME TO scriptures;",
            ),
            DbRequest::CreateFavoritesTable => Some(
                "CREATE TABLE IF NOT EXISTS favorites (\n            id INTEGER PRIMARY KEY,\n            content TEXT NOT NULL,\n            reference TEXT NOT NULL,\n            image_path TEXT NOT NULL,\n            created_at TEXT NOT NULL\n        )",
            ),
            DbRequest::CountVerses(Edition::Cuv) => Some("SELECT COUNT(*) FROM scriptures WHERE version = '和合本'"),
            DbRequest::CountVerses(Edition::Niv) => Some("SELECT COUNT(*) FROM scriptures WHERE version = 'NIV'"),
            DbRequest::InsertVerse(Edition::Cuv, _) => Some(
                "INSERT OR IGNORE INTO scriptures (content, reference, version) VALUES (?1, ?2, '和合本')",
            ),
            DbRequest::InsertVerse(Edition::Niv, _) => Some(
                "INSERT OR IGNORE INTO scriptures (content, reference, version) VALUES (?1, ?2, 'NIV')",
            ),
            DbRequest::Finish(_) => None,
            DbRequest::Stopped => None,
        }
    }
}

/// The error of a reply to a statement, if it failed.
pub open spec fn reply_error(r: ReplyView) -> Option<Seq<char>> {
    match r {
        ReplyView::Failed(e) => Some(e),
        _ => None,
    }
}

/// The count of a reply to a counting query; a query that failed or gave no
/// count counts as zero.
pub open spec fn reply_count(r: ReplyView) -> i64 {
    match r {
        ReplyView::Count(Some(c)) => c,
        _ => 0,
    }
}

/// The verse table lacks its unique index and must be rebuilt.
pub open spec fn needs_rebuild(unique_indexes: i64) -> bool {
    !(unique_indexes > 0)
}

/// Fewer verses of an edition are stored than the edition ships.
pub open spec fn needs_seeding(stored: i64, shipped: nat) -> bool {
    0 <= stored && stored < shipped
}

/// The number of shipped verses of an edition.
pub open spec fn shipped(e: Edition, cuv: nat, niv: nat) -> nat {
    match e {
        Edition::Cuv => cuv,
        Edition::Niv => niv,
    }
}

/// The message of a successful setup of the database at `location`.
pub open spec fn init_success_message(location: Seq<char>) -> Seq<char> {
    "数据库初始化成功 ("@ + location + ")"@
}

/// The message of a failed rebuild of the verse table.
pub open spec fn rebuild_error_message(e: Seq<char>) -> Seq<char> {
    "数据库迁移失败: "@ + e
}

/// What follows once an edition is seeded, or needs no seeding: the next
/// edition is counted, and after the last one the setup succeeds.
pub open spec fn after_edition(e: Edition, location: Seq<char>) -> (InitPhase, RequestView) {
    match e {
        Edition::Cuv => (InitPhase::Counting(Edition::Niv), RequestView::CountVerses(Edition::Niv)),
        Edition::Niv => (
            InitPhase::Finished,
            RequestView::Finish(Ok(init_success_message(location))),
        ),
    }
}

/// The transition of the setup machine on a reply: any failed statement ends
/// the setup with its message (a failed rebuild with its own prefix), counts
/// decide whether to rebuild and whether to seed, and seeding inserts every
/// shipped verse of the edition in order.
pub open spec fn init_transition(
    phase: InitPhase,
    cuv: nat,
    niv: nat,
    location: Seq<char>,
    reply: ReplyView,
) -> (InitPhase, RequestView) {
    match phase {
        InitPhase::CreatingScriptures => match reply_error(reply) {
            Some(e) => (InitPhase::Finished, RequestView::Finish(Err(e))),
            None => (InitPhase::CountingUnique, RequestView::CountUniqueIndexes),
        },
        InitPhase::CountingUnique => if needs_rebuild(reply_count(reply)) {
            (InitPhase::Rebuilding, RequestView::RebuildWithUniqueContent)
        } else {
            (InitPhase::CreatingFavorites, RequestView::CreateFavoritesTable)
        },
        InitPhase::Rebuilding => match reply_error(reply) {
            Some(e) => (InitPhase::Finished, RequestView::Finish(Err(rebuild_error_message(e)))),
            None => (InitPhase::CreatingFavorites, RequestView::CreateFavoritesTable),
        },
        InitPhase::CreatingFavorites => match reply_error(reply) {
            Some(e) => (InitPhase::Finished, RequestView::Finish(Err(e))),
            None => (InitPhase::Counting(Edition::Cuv), RequestView::CountVerses(Edition::Cuv)),
        },
        InitPhase::Counting(ed) => if needs_seeding(reply_count(reply), shipped(ed, cuv, niv)) {
            (InitPhase::Seeding(ed, 0), RequestView::InsertVerse(ed, 0))
        } else {
            after_edition(ed, location)
        },
        InitPhase::Seeding(ed, i) => match reply_error(reply) {
            Some(e) => (InitPhase::Finished, RequestView::Finish(Err(e))),
            None => if i + 1 < shipped(ed, cuv, niv) {
                (InitPhase::Seeding(ed, (i + 1) as usize), RequestView::InsertVerse(ed, i + 1))
            } else {
                after_edition(ed, location)
            },
        },
        InitPhase::Finished => (InitPhase::Finished, RequestView::Stopped),
    }
}

/// The phases of a setup for editions of `cuv` and `niv` verses: a seeding
/// phase stands at a shipped verse.
pub open spec fn phase_fits(phase: InitPhase, cuv: nat, niv: nat) -> bool {
    match phase {
        InitPhase::Seeding(ed, i) => i < shipped(ed, cuv, niv),
        _ => true,
    }
}

/// An upper bound on the number of replies still needed before the setup is
/// over.
pub open spec fn steps_left(phase: InitPhase, cuv: nat, niv: nat) -> nat {
    match phase {
        InitPhase::Finished => 0,
        InitPhase::Seeding(Edition::Niv, i) => (niv - i) as nat,
        InitPhase::Counting(Edition::Niv) => 1 + niv,
        InitPhase::Seeding(Edition::Cuv, i) => ((cuv - i) + 1 + niv) as nat,
        InitPhase::Counting(Edition::Cuv) => 2 + cuv + niv,
        InitPhase::CreatingFavorites => 3 + cuv + niv,
        InitPhase::Rebuilding => 4 + cuv + niv,
        InitPhase::CountingUnique => 5 + cuv + niv,
        InitPhase::CreatingScriptures => 6 + cuv + niv,
    }
}

/// The machine that sets up the verse database at a location, for shipped
/// verse lists of given lengths.
pub struct DatabaseInit {
    phase: InitPhase,
    cuv_len: usize,
    niv_len: usize,
    location: String,
}

impl DatabaseInit {
    #[verifier::type_invariant]
    closed spec fn well_formed(self) -> bool {
        phase_fits(self.phase, self.cuv_len as nat, self.niv_len as nat)
    }

    /// The outstanding request's phase.
    pub closed spec fn spec_phase(self) -> InitPhase {
        self.phase
    }

    /// The number of shipped 和合本 verses.
    pub closed spec fn spec_cuv_len(self) -> nat {
        self.cuv_len as nat
    }

    /// The number of shipped NIV verses.
    pub closed spec fn spec_niv_len(self) -> nat {
        self.niv_len as nat
    }

    /// Where the database is, as the success message names it.
    pub closed spec fn spec_location(self) -> Seq<char> {
        self.location@
    }

    /// The setup of the database at `location`, whose first request is to
    /// create the verse table.
    pub fn new(location: &str, cuv_len: usize, niv_len: usize) -> (res: (DatabaseInit, DbRequest))
        ensures
            res.0.spec_phase() == InitPhase::CreatingScriptures,
            res.0.spec_cuv_len() == cuv_len,
            res.0.spec_niv_len() == niv_len,
            res.0.spec_location() == location@,
            request_view(res.1) == RequestView::CreateScripturesTable,
    {
        (
            DatabaseInit {
                phase: InitPhase::CreatingScriptures,
                cuv_len,
                niv_len,
                location: location.to_owned(),
            },
            DbRequest::CreateScripturesTable,
        )
    }

    /// The phase of the setup, that is which request is outstanding.
    pub fn phase(&self) -> (p: InitPhase)
        ensures
            p == self.spec_phase(),
    {
        self.phase
    }

    fn after(&mut self, e: Edition) -> (req: DbRequest)
        requires
            phase_fits(old(self).phase, old(self).cuv_len as nat, old(self).niv_len as nat),
        ensures
            (final(self).phase, request_view(req)) == after_edition(e, old(self).location@),
            final(self).cuv_len == old(self).cuv_len,
            final(self).niv_len == old(self).niv_len,
            final(self).location == old(self).location,
    {
        match e {
            Edition::Cuv => {
                self.phase = InitPhase::Counting(Edition::Niv);
                DbRequest::CountVerses(Edition::Niv)
            },
            Edition::Niv => {
                self.phase = InitPhase::Finished;
                let mut m = "数据库初始化成功 (".to_owned();
                m.append(self.location.as_str());
                m.append(")");
                DbRequest::Finish(Ok(m))
            },
        }
    }

    /// Takes the reply to the outstanding request and gives the next request
    /// (see `init_transition`).
    pub fn step(&mut self, reply: DbReply) -> (req: DbRequest)
        ensures
            (final(self).spec_phase(), request_view(req)) == init_transition(
                old(self).spec_phase(),
                old(self).spec_cuv_len(),
                old(self).spec_niv_len(),
                old(self).spec_location(),
                reply_view(reply),
            ),
            final(self).spec_cuv_len() == old(self).spec_cuv_len(),
            final(self).spec_niv_len() == old(self).spec_niv_len(),
            final(self).spec_location() == old(self).spec_location(),
    {
        proof {
            use_type_invariant(&*self);
        }
        let count: i64 = match &reply {
            DbReply::Count(Some(c)) => *c,
            _ => 0,
        };
        let failure: Option<String> = match reply {
            DbReply::Failed(e) => Some(e),
            _ => None,
        };
        let cuv_len = self.cuv_len;
        let niv_len = self.niv_len;
        let mut next = DatabaseInit {
            phase: InitPhase::Finished,
            cuv_len,
            niv_len,
            location: String::new(),
        };
        std::mem::swap(&mut next.location, &mut self.location);
        let req = match self.phase {
            InitPhase::CreatingScriptures => match failure {
                Some(e) => DbRequest::Finish(Err(e)),
                None => {
                    next.phase = InitPhase::CountingUnique;
                    DbRequest::CountUniqueIndexes
                },
            },
            InitPhase::CountingUnique => {
                if !(count > 0) {
                    next.phase = InitPhase::Rebuilding;
                    DbRequest::RebuildWithUniqueContent
                } else {
                    next.phase = InitPhase::CreatingFavorites;
                    DbRequest::CreateFavoritesTable
                }
            },
            InitPhase::Rebuilding => match failure {
                Some(e) => {
                    let mut m = "数据库迁移失败: ".to_owned();
                    m.append(e.as_str());
                    DbRequest::Finish(Err(m))
                },
                None => {
                    next.phase = InitPhase::CreatingFavorites;
                    DbRequest::CreateFavoritesTable
                },
            },
            InitPhase::CreatingFavorites => match failure {
                Some(e) => DbRequest::Finish(Err(e)),
                None => {
                    next.phase = InitPhase::Counting(Edition::Cuv);
                    DbRequest::CountVerses(Edition::Cuv)
                },
            },
            InitPhase::Counting(ed) => {
                let len = match ed {
                    Edition::Cuv => cuv_len,
                    Edition::Niv => niv_len,
                };
                if 0 <= count && (count as u64) < (len as u64) {
                    next.phase = InitPhase::Seeding(ed, 0);
                    DbRequest::InsertVerse(ed, 0)
                } else {
                    next.after(ed)
                }
            },
            InitPhase::Seeding(ed, i) => match failure {
                Some(e) => DbRequest::Finish(Err(e)),
                None => {
                    let len = match ed {
                        Edition::Cuv => cuv_len,
                        Edition::Niv => niv_len,
                    };
                    if i + 1 < len {
                        next.phase = InitPhase::Seeding(ed, i + 1);
                        DbRequest::InsertVerse(ed, i + 1)
                    } else {
                        next.after(ed)
                    }
                },
            },
            InitPhase::Finished => DbRequest::Stopped,
        };
        *self = next;
        req
    }
}

/// Every reply brings an unfinished setup closer to its end, so a setup is
/// over after at most `steps_left` replies.
pub proof fn lemma_setup_terminates(
    phase: InitPhase,
    cuv: nat,
    niv: nat,
    location: Seq<char>,
    reply: ReplyView,
)
    requires
        phase_fits(phase, cuv, niv),
        phase != InitPhase::Finished,
        cuv <= usize::MAX,
        niv <= usize::MAX,
    ensures
        phase_fits(init_transition(phase, cuv, niv, location, reply).0, cuv, niv),
        steps_left(init_transition(phase, cuv, niv, location, reply).0, cuv, niv) < steps_left(
            phase,
            cuv,
            niv,
        ),
{
    match phase {
        InitPhase::Seeding(ed, i) => {
            assert(i < shipped(ed, cuv, niv));
        },
        InitPhase::Counting(ed) => {
            if needs_seeding(reply_count(reply), shipped(ed, cuv, niv)) {
                assert(0 < shipped(ed, cuv, niv));
            }
        },
        _ => {},
    }
}

/// A statement that fails ends the setup at once with an error, and the
/// error carries the database's message.
pub proof fn lemma_failure_ends_setup(
    phase: InitPhase,
    cuv: nat,
    niv: nat,
    location: Seq<char>,
    e: Seq<char>,
)
    requires
        phase is CreatingScriptures || phase is Rebuilding || phase is CreatingFavorites
            || phase is Seeding,
    ensures
        init_transition(phase, cuv, niv, location, ReplyView::Failed(e)).0 == InitPhase::Finished,
        init_transition(phase, cuv, niv, location, ReplyView::Failed(e)).1 == RequestView::Finish(
            Err(
                if phase is Rebuilding {
                    rebuild_error_message(e)
                } else {
                    e
                },
            ),
        ),
{
}

/// After counting an edition's stored verses, the first shipped verse is
/// inserted exactly when fewer are stored than shipped; otherwise no verse of
/// that edition is inserted.
pub proof fn lemma_seed_only_when_short(
    ed: Edition,
    cuv: nat,
    niv: nat,
    location: Seq<char>,
    reply: ReplyView,
)
    ensures
        (init_transition(InitPhase::Counting(ed), cuv, niv, location, reply).1 == RequestView::InsertVerse(ed, 0))
            == needs_seeding(reply_count(reply), shipped(ed, cuv, niv)),
        !needs_seeding(reply_count(reply), shipped(ed, cuv, niv)) ==> !(init_transition(
            InitPhase::Counting(ed),
            cuv,
            niv,
            location,
            reply,
        ).0 is Seeding),
{
}

/// The phase after `k` replies that each report a statement that ran.
pub open spec fn phase_after_successes(
    phase: InitPhase,
    cuv: nat,
    niv: nat,
    location: Seq<char>,
    k: nat,
) -> InitPhase
    decreases k,
{
    if k == 0 {
        phase
    } else {
        init_transition(
            phase_after_successes(phase, cuv, niv, location, (k - 1) as nat),
            cuv,
            niv,
            location,
            ReplyView::Done,
        ).0
    }
}

/// Seeding inserts the shipped verses of an edition one after the other:
/// while inserts succeed, the `k`-th reply after the insert of verse `i` asks
/// for verse `i + k + 1`, and once the last verse is in, the setup moves past
/// the edition.
pub proof fn lemma_seeding_in_order(
    ed: Edition,
    i: usize,
    k: nat,
    cuv: nat,
    niv: nat,
    location: Seq<char>,
)
    requires
        i + k < shipped(ed, cuv, niv),
        shipped(ed, cuv, niv) <= usize::MAX,
    ensures
        phase_after_successes(InitPhase::Seeding(ed, i), cuv, niv, location, k)
            == InitPhase::Seeding(ed, (i + k) as usize),
        i + k + 1 < shipped(ed, cuv, niv) ==> init_transition(
            InitPhase::Seeding(ed, (i + k) as usize),
            cuv,
            niv,
            location,
            ReplyView::Done,
        ).1 == RequestView::InsertVerse(ed, i + k + 1),
        i + k + 1 == shipped(ed, cuv, niv) ==> init_transition(
            InitPhase::Seeding(ed, (i + k) as usize),
            cuv,
            niv,
            location,
            ReplyView::Done,
        ) == after_edition(ed, location),
    decreases k,
{
    if k > 0 {
        lemma_seeding_in_order(ed, i, (k - 1) as nat, cuv, niv, location);
    }
}

/// The decisions of the setup, stated on the replies themselves.  After the
/// unique indexes are counted, a count that is not a positive number (a
/// failed query counts as none) rebuilds the verse table, and a positive one
/// goes on to the favourites table.  After an edition's stored verses are
/// counted (a failed query counts as zero), a count from zero up to below the
/// edition's shipped count seeds it from its first verse; any other count
/// seeds nothing and goes on to the NIV count after the 和合本, or reports
/// success after the NIV.
pub proof fn lemma_setup_decisions(
    ed: Edition,
    cuv: nat,
    niv: nat,
    location: Seq<char>,
    reply: ReplyView,
)
    ensures
        (reply matches ReplyView::Count(Some(n)) && n > 0) ==> init_transition(
            InitPhase::CountingUnique,
            cuv,
            niv,
            location,
            reply,
        ) == (InitPhase::CreatingFavorites, RequestView::CreateFavoritesTable),
        !(reply matches ReplyView::Count(Some(n)) && n > 0) ==> init_transition(
            InitPhase::CountingUnique,
            cuv,
            niv,
            location,
            reply,
        ) == (InitPhase::Rebuilding, RequestView::RebuildWithUniqueContent),
        ({
            let count: int = match reply {
                ReplyView::Count(Some(n)) => n as int,
                _ => 0,
            };
            let shipped_count: int = match ed {
                Edition::Cuv => cuv as int,
                Edition::Niv => niv as int,
            };
            let t = init_transition(InitPhase::Counting(ed), cuv, niv, location, reply);
            &&& 0 <= count < shipped_count ==> t == (
                InitPhase::Seeding(ed, 0),
                RequestView::InsertVerse(ed, 0),
            )
            &&& !(0 <= count < shipped_count) && ed == Edition::Cuv ==> t == (
                InitPhase::Counting(Edition::Niv),
                RequestView::CountVerses(Edition::Niv),
            )
            &&& !(0 <= count < shipped_count) && ed == Edition::Niv ==> t == (
                InitPhase::Finished,
                RequestView::Finish(Ok("数据库初始化成功 ("@ + location + ")"@)),
            )
        }),
        reply matches ReplyView::Failed(e) ==> init_transition(
            InitPhase::Rebuilding,
            cuv,
            niv,
            location,
            reply,
        ) == (InitPhase::Finished, RequestView::Finish(Err("数据库迁移失败: "@ + e))),
        reply is Done ==> init_transition(InitPhase::Rebuilding, cuv, niv, location, reply) == (
            InitPhase::CreatingFavorites,
            RequestView::CreateFavoritesTable,
        ),
{
}

/// Every setup that succeeds reports the same message, which names the
/// location alone: whatever the phase and the reply, a transition that ends
/// the setup with success ends it with `init_success_message(location)`.
pub proof fn lemma_success_names_location(
    phase: InitPhase,
    cuv: nat,
    niv: nat,
    location: Seq<char>,
    reply: ReplyView,
)
    ensures
        init_transition(phase, cuv, niv, location, reply).1 matches RequestView::Finish(Ok(m)) ==> m
            == init_success_message(location),
{
}

/// The number of stored verses of an edition.
pub open spec fn stored(e: Edition, stored_cuv: i64, stored_niv: i64) -> i64 {
    match e {
        Edition::Cuv => stored_cuv,
        Edition::Niv => stored_niv,
    }
}

/// The reply of a database whose verse table has `unique_indexes` unique
/// indexes and `stored_cuv` and `stored_niv` verses of the two editions, and
/// on which every statement runs.
pub open spec fn steady_reply(
    phase: InitPhase,
    unique_indexes: i64,
    stored_cuv: i64,
    stored_niv: i64,
) -> ReplyView {
    match phase {
        InitPhase::CountingUnique => ReplyView::Count(Some(unique_indexes)),
        InitPhase::Counting(e) => ReplyView::Count(Some(stored(e, stored_cuv, stored_niv))),
        _ => ReplyView::Done,
    }
}

/// The requests that a setup in `phase` makes on such a database, one per
/// reply, for at most `fuel` replies.
pub open spec fn steady_run(
    phase: InitPhase,
    cuv: nat,
    niv: nat,
    location: Seq<char>,
    unique_indexes: i64,
    stored_cuv: i64,
    stored_niv: i64,
    fuel: nat,
) -> Seq<RequestView>
    decreases fuel,
{
    if fuel == 0 || phase == InitPhase::Finished {
        Seq::empty()
    } else {
        let t = init_transition(
            phase,
            cuv,
            niv,
            location,
            steady_reply(phase, unique_indexes, stored_cuv, stored_niv),
        );
        seq![t.1] + steady_run(
            t.0,
            cuv,
            niv,
            location,
            unique_indexes,
            stored_cuv,
            stored_niv,
            (fuel - 1) as nat,
        )
    }
}

/// What a steady run from a phase yields: it ends with the success message,
/// rebuilds nothing, finishes only at its end, and inserts only shipped
/// verses of an edition that has fewer stored than shipped.
pub open spec fn steady_run_ok(
    run: Seq<RequestView>,
    cuv: nat,
    niv: nat,
    location: Seq<char>,
    stored_cuv: i64,
    stored_niv: i64,
) -> bool {
    &&& run.len() > 0
    &&& run.last() == RequestView::Finish(Ok(init_success_message(location)))
    &&& forall|i: int| 0 <= i < run.len() ==> !(#[trigger] run[i] is RebuildWithUniqueContent)
    &&& forall|i: int| 0 <= i < run.len() - 1 ==> !(#[trigger] run[i] is Finish)
    &&& forall|i: int|
        0 <= i < run.len() ==> (#[trigger] run[i] matches RequestView::InsertVerse(e, j)
            ==> needs_seeding(stored(e, stored_cuv, stored_niv), shipped(e, cuv, niv)) && 0 <= j
            < shipped(e, cuv, niv))
}

proof fn lemma_steady_run(
    phase: InitPhase,
    cuv: nat,
    niv: nat,
    location: Seq<char>,
    unique_indexes: i64,
    stored_cuv: i64,
    stored_niv: i64,
    fuel: nat,
)
    requires
        unique_indexes > 0,
        cuv <= usize::MAX,
        niv <= usize::MAX,
        phase_fits(phase, cuv, niv),
        phase != InitPhase::Finished,
        phase != InitPhase::Rebuilding,
        phase matches InitPhase::Seeding(e, _) ==> needs_seeding(
            stored(e, stored_cuv, stored_niv),
            shipped(e, cuv, niv),
        ),
        fuel >= steps_left(phase, cuv, niv),
    ensures
        steady_run_ok(
            steady_run(phase, cuv, niv, location, unique_indexes, stored_cuv, stored_niv, fuel),
            cuv,
            niv,
            location,
            stored_cuv,
            stored_niv,
        ),
    decreases fuel,
{
    let reply = steady_reply(phase, unique_indexes, stored_cuv, stored_niv);
    let t = init_transition(phase, cuv, niv, location, reply);
    lemma_setup_terminates(phase, cuv, niv, location, reply);
    let run = steady_run(phase, cuv, niv, location, unique_indexes, stored_cuv, stored_niv, fuel);
    let rest = steady_run(
        t.0,
        cuv,
        niv,
        location,
        unique_indexes,
        stored_cuv,
        stored_niv,
        (fuel - 1) as nat,
    );
    assert(run == seq![t.1] + rest);
    assert(t.1 matches RequestView::InsertVerse(e, j) ==> needs_seeding(
        stored(e, stored_cuv, stored_niv),
        shipped(e, cuv, niv),
    ) && 0 <= j < shipped(e, cuv, niv));
    if t.0 == InitPhase::Finished {
        assert(rest =~= Seq::<RequestView>::empty());
        assert(run =~= seq![t.1]);
    } else {
        lemma_steady_run(
            t.0,
            cuv,
            niv,
            location,
            unique_indexes,
            stored_cuv,
            stored_niv,
            (fuel - 1) as nat,
        );
        assert(!(t.1 is Finish));
        assert forall|i: int| 0 <= i < run.len() implies !(
        #[trigger] run[i] is RebuildWithUniqueContent) by {
            if i > 0 {
                assert(run[i] == rest[i - 1]);
            }
        }
        assert forall|i: int| 0 <= i < run.len() - 1 implies !(#[trigger] run[i] is Finish) by {
            if i > 0 {
                assert(run[i] == rest[i - 1]);
            }
        }
        assert forall|i: int| 0 <= i < run.len() implies (#[trigger] run[i] matches RequestView::InsertVerse(
            e,
            j,
        ) ==> needs_seeding(stored(e, stored_cuv, stored_niv), shipped(e, cuv, niv)) && 0 <= j
            < shipped(e, cuv, niv)) by {
            if i > 0 {
                assert(run[i] == rest[i - 1]);
            }
        }
        assert(run.last() == rest.last());
    }
}

/// Setting up a database again leaves it as it is: once the verse table has
/// its unique index, a setup in which every statement runs never rebuilds the
/// table, makes no request after it reports, inserts only shipped verses of
/// an edition with fewer stored verses than shipped (each by the
/// insert-unless-stored statement of `insert_verse_sql`, and none at all when
/// every edition has its shipped verses stored), and reports the message of
/// any successful setup at that location.  The run lists the requests that
/// follow the first one, `CreateScripturesTable`.
pub proof fn lemma_second_setup_changes_nothing(
    cuv: nat,
    niv: nat,
    location: Seq<char>,
    unique_indexes: i64,
    stored_cuv: i64,
    stored_niv: i64,
)
    requires
        unique_indexes > 0,
        cuv <= usize::MAX,
        niv <= usize::MAX,
    ensures
        steady_run_ok(
            steady_run(
                InitPhase::CreatingScriptures,
                cuv,
                niv,
                location,
                unique_indexes,
                stored_cuv,
                stored_niv,
                steps_left(InitPhase::CreatingScriptures, cuv, niv),
            ),
            cuv,
            niv,
            location,
            stored_cuv,
            stored_niv,
        ),
        stored_cuv >= cuv && stored_niv >= niv ==> forall|i: int|
            0 <= i < steady_run(
                InitPhase::CreatingScriptures,
                cuv,
                niv,
                location,
                unique_indexes,
                stored_cuv,
                stored_niv,
                steps_left(InitPhase::CreatingScriptures, cuv, niv),
            ).len() ==> !(#[trigger] steady_run(
                InitPhase::CreatingScriptures,
                cuv,
                niv,
                location,
                unique_indexes,
                stored_cuv,
                stored_niv,
                steps_left(InitPhase::CreatingScriptures, cuv, niv),
            )[i] is InsertVerse),
{
    lemma_steady_run(
        InitPhase::CreatingScriptures,
        cuv,
        niv,
        location,
        unique_indexes,
        stored_cuv,
        stored_niv,
        steps_left(InitPhase::CreatingScriptures, cuv, niv),
    );
}

/// The message when no verse of `version` is stored.
pub open spec fn no_verses_message(version: Seq<char>) -> Seq<char> {
    "数据库中没有 "@ + version + " 版本的经文"@
}

/// The offset of a random stored verse of `version`, given the count of its
/// stored verses (a failed count counts as zero), or the message that there
/// is none.
pub fn pick_verse_offset(count: Option<i64>, version: &str) -> (res: Result<i64, String>)
    requires
        match count {
            Some(c) => c >= 0,
            None => true,
        },
    ensures
        res is Err <==> (count matches Some(c) ==> c == 0),
        res matches Err(e) ==> e@ == no_verses_message(version@),
        res matches Ok(o) ==> count matches Some(c) && 0 <= o < c,
{
    let c: i64 = match count {
        Some(c) => c,
        None => 0,
    };
    if c == 0 {
        let mut m = "数据库中没有 ".to_owned();
        m.append(version);
        m.append(" 版本的经文");
        return Err(m);
    }
    let o = random_below(c as u64);
    Ok(o as i64)
}

} // verus!
