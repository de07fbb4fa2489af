//! Turning migration scripts into a validated, ordered set of migrations.

use vstd::prelude::*;

use crate::name::{parse_name, parse_outcome, parse_spec, NameParse, ParsedName};
use crate::text::{chars_of, sha384_digest, sha384_of, string_of};
use crate::types::{Config, Migration, MigrationType, MigrationView, ResolveError, ResolveSettings};

verus! {

/// A migration script as read from its source: its file name and its text.
#[derive(Clone, Debug)]
pub struct SourceFile {
    pub name: String,
    pub sql: String,
}

pub struct SourceView {
    pub name: Seq<char>,
    pub sql: Seq<char>,
}

impl View for SourceFile {
    type V = SourceView;

    open spec fn view(&self) -> SourceView {
        SourceView { name: self.name@, sql: self.sql@ }
    }
}

pub open spec fn source_views(s: Seq<SourceFile>) -> Seq<SourceView> {
    s.map_values(|f: SourceFile| f@)
}

pub open spec fn migration_views(s: Seq<Migration>) -> Seq<MigrationView> {
    s.map_values(|m: Migration| m@)
}

/// The first line that marks a script as one to run outside a transaction.
pub open spec fn no_tx_marker() -> Seq<char> {
    "-- no-transaction"@
}

pub open spec fn starts_with(s: Seq<char>, p: Seq<char>) -> bool {
    p.len() <= s.len() && s.take(p.len() as int) == p
}

/// A script's text without the ignored characters.
pub open spec fn strip_ignored(sql: Seq<char>, ignored: Seq<char>) -> Seq<char> {
    sql.filter(|c: char| !ignored.contains(c))
}

/// The checksum of a script: the digest of its text without the ignored characters.
/// Only the script's own text counts: a forward script's checksum does not
/// cover its backward script.
pub open spec fn checksum_spec(sql: Seq<char>, ignored: Seq<char>) -> Seq<u8> {
    sha384_of(strip_ignored(sql, ignored))
}

/// The migration that a source file holds, if its name names a migration script.
pub open spec fn migration_of(src: SourceView, settings: ResolveSettings) -> Option<MigrationView> {
    match parse_spec(src.name) {
        NameParse::Parsed { version, description, migration_type } => Some(
            MigrationView {
                version,
                description,
                migration_type,
                checksum: checksum_spec(src.sql, settings.ignored),
                sql: src.sql,
                no_tx: starts_with(src.sql, no_tx_marker()) || settings.no_tx_versions.contains(version),
            },
        ),
        _ => None,
    }
}

/// A source file whose name is either a well-formed migration name or none at all.
pub open spec fn source_ok(src: SourceView) -> bool {
    !(parse_spec(src.name) is BadVersion) && !(parse_spec(src.name) is NoDescription)
}

/// Two source files hold migrations that run in the same direction at the same version.
pub open spec fn duplicate_at(srcs: Seq<SourceView>, settings: ResolveSettings, i: int, j: int) -> bool {
    &&& 0 <= i < srcs.len()
    &&& 0 <= j < srcs.len()
    &&& i != j
    &&& migration_of(srcs[i], settings) is Some
    &&& migration_of(srcs[j], settings) is Some
    &&& migration_of(srcs[i], settings)->0.same_key(migration_of(srcs[j], settings)->0)
}

/// The migrations that a list of sources holds.
pub open spec fn resolved(srcs: Seq<SourceView>, settings: ResolveSettings) -> Set<MigrationView> {
    Set::new(|m: MigrationView| exists|i: int| 0 <= i < srcs.len() && migration_of(srcs[i], settings) == Some(m))
}

/// A migration of a set lacks its other half: a backward script with no
/// forward one, or (unless tolerated) a forward one with no backward script.
pub open spec fn lacks_pair(s: Set<MigrationView>, m: MigrationView, allow_missing_down: bool) -> bool {
    ||| (m.migration_type is ReversibleDown && !(exists|u: MigrationView| #[trigger] s.contains(u)
        && u.migration_type is ReversibleUp && u.version == m.version))
    ||| (m.migration_type is ReversibleUp && !allow_missing_down && !(exists|d: MigrationView| #[trigger] s.contains(d)
        && d.migration_type is ReversibleDown && d.version == m.version))
}

/// The sources resolve: every name is well-formed, no direction has a version
/// twice, and every reversible script has its other half.
pub open spec fn resolvable(srcs: Seq<SourceView>, settings: ResolveSettings, allow_missing_down: bool) -> bool {
    &&& forall|i: int| 0 <= i < srcs.len() ==> source_ok(#[trigger] srcs[i])
    &&& forall|i: int, j: int| !duplicate_at(srcs, settings, i, j)
    &&& forall|m: MigrationView| #[trigger] resolved(srcs, settings).contains(m) ==> !lacks_pair(resolved(srcs, settings), m, allow_missing_down)
}

/// Strictly ascending by version, forward scripts before the backward one of their version.
pub open spec fn sorted_strict(s: Seq<MigrationView>) -> bool {
    forall|i: int, j: int| 0 <= i < j < s.len() ==> (#[trigger] s[i]).key_lt(#[trigger] s[j])
}

/// The validity of a migration set, as the planner relies on it.
pub open spec fn set_wf(set: Seq<MigrationView>) -> bool {
    &&& sorted_strict(set)
    &&& forall|i: int| 0 <= i < set.len() && (#[trigger] set[i]).migration_type is ReversibleDown
        ==> !lacks_pair(set.to_set(), set[i], true)
}

/// A validated migration set: ordered strictly by version and direction, and
/// every backward script paired with a forward one.
pub struct MigrationSet {
    migrations: Vec<Migration>,
}

impl View for MigrationSet {
    type V = Seq<MigrationView>;

    closed spec fn view(&self) -> Seq<MigrationView> {
        migration_views(self.migrations@)
    }
}

impl MigrationSet {
    #[verifier::type_invariant]
    spec fn inv(self) -> bool {
        set_wf(migration_views(self.migrations@))
    }

    pub open spec fn wf(&self) -> bool {
        set_wf(self@)
    }

    /// The migrations, in order.
    pub fn migrations(&self) -> (r: &Vec<Migration>)
        ensures
            migration_views(r@) == self@,
            self.wf(),
    {
        proof {
            use_type_invariant(self);
        }
        &self.migrations
    }

    /// Validates a ready-made table of migrations, such as one embedded in the
    /// program at build time: it must already be in strict ascending order,
    /// and every backward script must follow its forward script.
    pub fn from_migrations(migrations: Vec<Migration>) -> (r: Result<MigrationSet, ResolveError>)
        ensures
            r is Ok <==> set_wf(migration_views(migrations@)),
            r is Ok ==> r->Ok_0@ == migration_views(migrations@),
            r matches Err(ResolveError::DuplicateVersion { .. }) ==> !sorted_strict(migration_views(migrations@)),
            r matches Err(ResolveError::OutOfOrderInput { .. }) ==> !sorted_strict(migration_views(migrations@)),
            r matches Err(ResolveError::MissingPair { version }) ==> exists|i: int|
                0 <= i < migrations@.len() && (#[trigger] migrations@[i]).version == version
                && lacks_pair(migration_views(migrations@).to_set(), migrations@[i]@, true),
            !(r matches Err(ResolveError::InvalidVersion { .. })),
            !(r matches Err(ResolveError::MissingDescription { .. })),
    {
        let ghost views = migration_views(migrations@);
        let mut i: usize = 1;
        while i < migrations.len()
            invariant
                1 <= i,
                views == migration_views(migrations@),
                forall|a: int, b: int| 0 <= a < b < i && b < views.len() ==> (#[trigger] views[a]).key_lt(#[trigger] views[b]),
            decreases migrations.len() - i,
        {
            if !key_less(&migrations[i - 1], &migrations[i]) {
                assert(!views[i - 1].key_lt(views[i as int]));
                if migrations[i - 1].version == migrations[i].version
                    && migrations[i - 1].migration_type.is_down() == migrations[i].migration_type.is_down() {
                    return Err(ResolveError::DuplicateVersion { version: migrations[i].version });
                }
                return Err(ResolveError::OutOfOrderInput { version: migrations[i].version });
            }
            proof {
                assert forall|a: int, b: int| 0 <= a < b < i + 1 && b < views.len() implies (#[trigger] views[a]).key_lt(#[trigger] views[b]) by {
                    if b == i && a < i - 1 {
                        assert(views[a].key_lt(views[i - 1]));
                    }
                }
            }
            i = i + 1;
        }
        assert(sorted_strict(views));
        let ghost set = views.to_set();
        let mut j: usize = 0;
        while j < migrations.len()
            invariant
                j <= migrations@.len(),
                views == migration_views(migrations@),
                set == views.to_set(),
                sorted_strict(views),
                forall|k: int| 0 <= k < j && (#[trigger] views[k]).migration_type is ReversibleDown
                    ==> !lacks_pair(set, views[k], true),
            decreases migrations.len() - j,
        {
            let v = migrations[j].version;
            assert(views[j as int] == migrations@[j as int]@);
            if migrations[j].migration_type.is_down() {
                if !(j > 0 && migrations[j - 1].version == v && matches!(migrations[j - 1].migration_type, MigrationType::ReversibleUp)) {
                    proof {
                        assert forall|u: MigrationView| #[trigger] set.contains(u) && u.migration_type is ReversibleUp
                            && u.version == v implies false by {
                            let idx = choose|idx: int| 0 <= idx < views.len() && views[idx] == u;
                            if idx > j {
                                assert(views[j as int].key_lt(views[idx]));
                            }
                            lemma_pair_adjacent(views, idx, j as int);
                            assert(views[idx] == migrations@[idx]@);
                        }
                        assert(lacks_pair(set, views[j as int], true));
                    }
                    return Err(ResolveError::MissingPair { version: v });
                }
                assert(set.contains(views[j - 1]));
            }
            j = j + 1;
        }
        let r = MigrationSet { migrations };
        assert(r@ == views);
        Ok(r)
    }

    pub fn len(&self) -> (r: usize)
        ensures
            r == self@.len(),
            self.wf(),
    {
        proof {
            use_type_invariant(self);
        }
        self.migrations.len()
    }
}

/// What an error of `resolve` points at in the sources.
pub open spec fn error_witnessed(
    srcs: Seq<SourceView>,
    settings: ResolveSettings,
    allow_missing_down: bool,
    e: ResolveError,
) -> bool {
    match e {
        ResolveError::InvalidVersion { name } => exists|i: int|
            0 <= i < srcs.len() && (#[trigger] srcs[i]).name == name@ && parse_spec(name@) is BadVersion,
        ResolveError::MissingDescription { name } => exists|i: int|
            0 <= i < srcs.len() && (#[trigger] srcs[i]).name == name@ && parse_spec(name@) is NoDescription,
        ResolveError::DuplicateVersion { version } => exists|i: int, j: int|
            #[trigger] duplicate_at(srcs, settings, i, j) && migration_of(srcs[i], settings)->0.version
                == version,
        ResolveError::MissingPair { version } => exists|m: MigrationView|
            #[trigger] resolved(srcs, settings).contains(m) && m.version == version && lacks_pair(
                resolved(srcs, settings),
                m,
                allow_missing_down,
            ),
        ResolveError::OutOfOrderInput { .. } => false,
    }
}

fn contains_char(v: &Vec<char>, c: char) -> (r: bool)
    ensures
        r == v@.contains(c),
{
    let mut i: usize = 0;
    while i < v.len()
        invariant
            i <= v@.len(),
            forall|j: int| 0 <= j < i ==> v@[j] != c,
        decreases v.len() - i,
    {
        if v[i] == c {
            return true;
        }
        i = i + 1;
    }
    false
}

fn strip_chars(sql: &Vec<char>, ignored: &Vec<char>) -> (r: Vec<char>)
    ensures
        r@ == strip_ignored(sql@, ignored@),
{
    let mut r: Vec<char> = Vec::new();
    let mut i: usize = 0;
    assert(sql@.take(0) =~= Seq::<char>::empty());
    while i < sql.len()
        invariant
            i <= sql@.len(),
            r@ == strip_ignored(sql@.take(i as int), ignored@),
        decreases sql.len() - i,
    {
        let c = sql[i];
        let ghost next = sql@.take(i + 1);
        assert(next.drop_last() =~= sql@.take(i as int));
        assert(next.last() == c);
        proof {
            reveal(Seq::filter);
        }
        if !contains_char(ignored, c) {
            r.push(c);
        }
        assert(r@ =~= strip_ignored(next, ignored@));
        i = i + 1;
    }
    assert(sql@.take(i as int) =~= sql@);
    r
}

fn contains_version(v: &Vec<i64>, x: i64) -> (r: bool)
    ensures
        r == v@.contains(x),
{
    let mut i: usize = 0;
    while i < v.len()
        invariant
            i <= v@.len(),
            forall|j: int| 0 <= j < i ==> v@[j] != x,
        decreases v.len() - i,
    {
        if v[i] == x {
            return true;
        }
        i = i + 1;
    }
    false
}

fn has_no_tx_marker(sql: &Vec<char>) -> (r: bool)
    ensures
        r == starts_with(sql@, no_tx_marker()),
{
    let marker = chars_of("-- no-transaction");
    if marker.len() > sql.len() {
        return false;
    }
    let mut i: usize = 0;
    while i < marker.len()
        invariant
            marker@ == no_tx_marker(),
            marker@.len() <= sql@.len(),
            i <= marker@.len(),
            forall|j: int| 0 <= j < i ==> sql@[j] == marker@[j],
        decreases marker.len() - i,
    {
        if sql[i] != marker[i] {
            assert(sql@.take(marker@.len() as int)[i as int] != marker@[i as int]);
            return false;
        }
        i = i + 1;
    }
    assert(sql@.take(marker@.len() as int) =~= marker@);
    true
}

/// The migration held by `src`, whose name was read as `p`.
fn build_migration(src: &SourceFile, p: ParsedName, config: &Config) -> (r: Migration)
    requires
        parse_outcome(src.name@, Ok(Some(p))),
    ensures
        migration_of(src@, config.resolve_settings()) == Some(r@),
{
    let sql = chars_of(src.sql.as_str());
    let stripped = strip_chars(&sql, &config.ignored_chars);
    let checksum = sha384_digest(string_of(&stripped).as_str());
    let no_tx = has_no_tx_marker(&sql) || contains_version(&config.no_tx_versions, p.version);
    let r = Migration {
        version: p.version,
        description: p.description,
        migration_type: p.migration_type,
        checksum,
        sql: src.sql.clone(),
        no_tx,
    };
    r
}

fn key_less(a: &Migration, b: &Migration) -> (r: bool)
    ensures
        r == a@.key_lt(b@),
{
    a.version < b.version || (a.version == b.version && !a.migration_type.is_down()
        && b.migration_type.is_down())
}

proof fn lemma_pair_adjacent(s: Seq<MigrationView>, j: int, i: int)
    requires
        sorted_strict(s),
        0 <= j < i < s.len(),
        s[j].version == s[i].version,
        s[j].migration_type.rank() == 0,
        s[i].migration_type.rank() == 1,
    ensures
        j == i - 1,
{
    if j < i - 1 {
        assert(s[j].key_lt(s[i - 1]));
        assert(s[i - 1].key_lt(s[i]));
    }
}

/// Resolves migration scripts into a validated set, ordered by version with
/// each forward script before the backward script of its version. Files whose
/// names do not end in `.sql` are passed over.
pub fn resolve(sources: &Vec<SourceFile>, config: &Config) -> (r: Result<MigrationSet, ResolveError>)
    ensures
        r is Ok <==> resolvable(
            source_views(sources@),
            config.resolve_settings(),
            config.allow_missing_down,
        ),
        r is Ok ==> r->Ok_0.wf() && r->Ok_0@.to_set() == resolved(
            source_views(sources@),
            config.resolve_settings(),
        ),
        r is Err ==> error_witnessed(
            source_views(sources@),
            config.resolve_settings(),
            config.allow_missing_down,
            r->Err_0,
        ),
{
    match resolve_with_origins(sources, config) {
        Ok((set, _)) => Ok(set),
        Err(e) => Err(e),
    }
}

/// Resolves like `resolve`, and also gives, for each migration of the set,
/// the position of the source file it came from.
pub fn resolve_with_origins(sources: &Vec<SourceFile>, config: &Config) -> (r: Result<
    (MigrationSet, Vec<usize>),
    ResolveError,
>)
    ensures
        r is Ok <==> resolvable(
            source_views(sources@),
            config.resolve_settings(),
            config.allow_missing_down,
        ),
        r is Ok ==> r->Ok_0.0.wf() && r->Ok_0.0@.to_set() == resolved(
            source_views(sources@),
            config.resolve_settings(),
        ),
        r is Ok ==> r->Ok_0.1@.len() == r->Ok_0.0@.len() && forall|j: int|
            0 <= j < r->Ok_0.1@.len() ==> (#[trigger] r->Ok_0.1@[j]) < sources@.len()
                && migration_of(sources@[r->Ok_0.1@[j] as int]@, config.resolve_settings())
                == Some(r->Ok_0.0@[j]),
        r is Err ==> error_witnessed(
            source_views(sources@),
            config.resolve_settings(),
            config.allow_missing_down,
            r->Err_0,
        ),
{
    let ghost srcs = source_views(sources@);
    let ghost ig = config.resolve_settings();
    let ghost allow = config.allow_missing_down;
    let mut out: Vec<Migration> = Vec::new();
    let mut origins: Vec<usize> = Vec::new();
    let mut i: usize = 0;
    while i < sources.len()
        invariant
            i <= sources@.len(),
            origins@.len() == out@.len(),
            forall|j: int| 0 <= j < origins@.len() ==> (#[trigger] origins@[j]) < i
                && migration_of(srcs[origins@[j] as int], ig) == Some(migration_views(out@)[j]),
            srcs == source_views(sources@),
            ig == config.resolve_settings(),
            forall|k: int| 0 <= k < i ==> source_ok(#[trigger] srcs[k]),
            forall|k: int, k2: int| 0 <= k < i && 0 <= k2 < i ==> !duplicate_at(srcs, ig, k, k2),
            sorted_strict(migration_views(out@)),
            forall|m: MigrationView| migration_views(out@).contains(m) <==> exists|k: int|
                0 <= k < i && migration_of(srcs[k], ig) == Some(m),
        decreases sources.len() - i,
    {
        let src = &sources[i];
        assert(srcs[i as int] == src@);
        let parsed = parse_name(src.name.as_str());
        let p = match parsed {
            Err(e) => {
                return Err(e);
            },
            Ok(None) => {
                assert forall|m: MigrationView| migration_views(out@).contains(m) <==> exists|k: int|
                    0 <= k < i + 1 && migration_of(srcs[k], ig) == Some(m) by {
                    if exists|k: int| 0 <= k < i + 1 && migration_of(srcs[k], ig) == Some(m) {
                        let k = choose|k: int| 0 <= k < i + 1 && migration_of(srcs[k], ig) == Some(m);
                        assert(k != i as int);
                    }
                }
                i = i + 1;
                continue;
            },
            Ok(Some(p)) => p,
        };
        let m = build_migration(src, p, config);
        let ghost mv = m@;
        let ghost views = migration_views(out@);
        let mut pos: usize = 0;
        let mut found = false;
        while pos < out.len() && !found
            invariant
                pos <= out@.len(),
                views == migration_views(out@),
                forall|j: int| 0 <= j < pos ==> views[j].key_lt(mv),
                found ==> pos < out@.len() && !views[pos as int].key_lt(mv),
                mv == m@,
            decreases out.len() - pos + (if found { 0int } else { 1int }),
        {
            if key_less(&out[pos], &m) {
                pos = pos + 1;
            } else {
                found = true;
            }
        }
        if pos < out.len() && out[pos].version == m.version && out[pos].migration_type.is_down()
            == m.migration_type.is_down() {
            assert(views.contains(views[pos as int]));
            let ghost k = choose|k: int| 0 <= k < i && migration_of(srcs[k], ig) == Some(views[pos as int]);
            assert(duplicate_at(srcs, ig, k, i as int));
            return Err(ResolveError::DuplicateVersion { version: m.version });
        }
        proof {
            assert forall|j: int| pos <= j < views.len() implies mv.key_lt(#[trigger] views[j]) by {
                if j > pos {
                    assert(views[pos as int].key_lt(views[j]));
                }
            }
            assert forall|k: int, k2: int| 0 <= k < i + 1 && 0 <= k2 < i + 1 implies !duplicate_at(srcs, ig, k, k2) by {
                if k == i && k2 < i && duplicate_at(srcs, ig, k, k2) {
                    let m2 = migration_of(srcs[k2], ig)->0;
                    assert(views.contains(m2));
                    let idx = choose|idx: int| 0 <= idx < views.len() && views[idx] == m2;
                    assert(idx != pos);
                }
                if k2 == i && k < i && duplicate_at(srcs, ig, k, k2) {
                    let m2 = migration_of(srcs[k], ig)->0;
                    assert(views.contains(m2));
                    let idx = choose|idx: int| 0 <= idx < views.len() && views[idx] == m2;
                    assert(idx != pos);
                }
            }
        }
        let ghost old_origins = origins@;
        out.insert(pos, m);
        origins.insert(pos, i);
        assert(migration_views(out@) =~= views.insert(pos as int, mv));
        proof {
            let nv = migration_views(out@);
            assert forall|j: int| 0 <= j < origins@.len() implies (#[trigger] origins@[j]) < i + 1
                && migration_of(srcs[origins@[j] as int], ig) == Some(nv[j]) by {
                if j < pos {
                    assert(origins@[j] == old_origins[j]);
                    assert(nv[j] == views[j]);
                } else if j > pos {
                    assert(origins@[j] == old_origins[j - 1]);
                    assert(nv[j] == views[j - 1]);
                }
            }
        }
        proof {
            let nv = migration_views(out@);
            assert forall|m2: MigrationView| nv.contains(m2) <==> exists|k: int|
                0 <= k < i + 1 && migration_of(srcs[k], ig) == Some(m2) by {
                if nv.contains(m2) {
                    let idx = choose|idx: int| 0 <= idx < nv.len() && nv[idx] == m2;
                    if idx < pos {
                        assert(views[idx] == m2);
                        assert(views.contains(m2));
                    } else if idx > pos {
                        assert(views[idx - 1] == m2);
                        assert(views.contains(m2));
                    } else {
                        assert(migration_of(srcs[i as int], ig) == Some(m2));
                    }
                }
                if exists|k: int| 0 <= k < i + 1 && migration_of(srcs[k], ig) == Some(m2) {
                    let k = choose|k: int| 0 <= k < i + 1 && migration_of(srcs[k], ig) == Some(m2);
                    if k == i {
                        assert(nv[pos as int] == m2);
                    } else {
                        assert(views.contains(m2));
                        let idx = choose|idx: int| 0 <= idx < views.len() && views[idx] == m2;
                        if idx < pos {
                            assert(nv[idx] == m2);
                        } else {
                            assert(nv[idx + 1] == m2);
                        }
                    }
                }
            }
        }
        i = i + 1;
    }
    let ghost views = migration_views(out@);
    let ghost set = views.to_set();
    proof {
        assert(set =~= resolved(srcs, ig));
    }
    let mut j: usize = 0;
    while j < out.len()
        invariant
            j <= out@.len(),
            views == migration_views(out@),
            set == views.to_set(),
            set == resolved(srcs, ig),
            srcs == source_views(sources@),
            ig == config.resolve_settings(),
            sorted_strict(views),
            allow == config.allow_missing_down,
            origins@.len() == out@.len(),
            forall|j: int| 0 <= j < origins@.len() ==> (#[trigger] origins@[j]) < sources@.len()
                && migration_of(srcs[origins@[j] as int], ig) == Some(views[j]),
            forall|k: int| 0 <= k < j ==> !lacks_pair(set, #[trigger] views[k], allow),
        decreases out.len() - j,
    {
        let t = out[j].migration_type;
        let v = out[j].version;
        assert(views[j as int].version == v && views[j as int].migration_type == t);
        if t.is_down() {
            if !(j > 0 && out[j - 1].version == v && matches!(out[j - 1].migration_type, MigrationType::ReversibleUp)) {
                proof {
                    assert forall|u: MigrationView| #[trigger] set.contains(u) && u.migration_type is ReversibleUp
                        && u.version == v implies false by {
                        let idx = choose|idx: int| 0 <= idx < views.len() && views[idx] == u;
                        if idx > j {
                            assert(views[j as int].key_lt(views[idx]));
                        }
                        lemma_pair_adjacent(views, idx, j as int);
                        assert(views[idx] == out@[idx]@);
                    }
                    assert(resolved(srcs, ig).contains(views[j as int]));
                    assert(lacks_pair(set, views[j as int], allow));
                }
                return Err(ResolveError::MissingPair { version: v });
            }
            assert(set.contains(views[j - 1]));
        } else if !config.allow_missing_down && matches!(t, MigrationType::ReversibleUp) {
            if !(j + 1 < out.len() && out[j + 1].version == v && out[j + 1].migration_type.is_down()) {
                proof {
                    assert forall|d: MigrationView| #[trigger] set.contains(d) && d.migration_type is ReversibleDown
                        && d.version == v implies false by {
                        let idx = choose|idx: int| 0 <= idx < views.len() && views[idx] == d;
                        if idx < j {
                            assert(views[idx].key_lt(views[j as int]));
                        }
                        lemma_pair_adjacent(views, j as int, idx);
                        assert(views[idx] == out@[idx]@);
                    }
                    assert(resolved(srcs, ig).contains(views[j as int]));
                    assert(lacks_pair(set, views[j as int], allow));
                }
                return Err(ResolveError::MissingPair { version: v });
            }
            assert(set.contains(views[j + 1]));
        }
        j = j + 1;
    }
    proof {
        assert forall|m: MigrationView| #[trigger] resolved(srcs, ig).contains(m) implies !lacks_pair(
            resolved(srcs, ig),
            m,
            allow,
        ) by {
            let idx = choose|idx: int| 0 <= idx < views.len() && views[idx] == m;
            assert(!lacks_pair(set, views[idx], allow));
        }
    }
    let r = MigrationSet { migrations: out };
    assert(r@ == views);
    Ok((r, origins))
}

/// Sources in which two scripts run in the same direction at the same version
/// never resolve: `resolve` rejects them before anything touches a database.
pub proof fn lemma_duplicate_rejected(
    srcs: Seq<SourceView>,
    settings: ResolveSettings,
    allow_missing_down: bool,
    i: int,
    j: int,
)
    requires
        duplicate_at(srcs, settings, i, j),
    ensures
        !resolvable(srcs, settings, allow_missing_down),
{
}

proof fn lemma_sorted_unique(a: Seq<MigrationView>, b: Seq<MigrationView>)
    requires
        sorted_strict(a),
        sorted_strict(b),
        a.to_set() == b.to_set(),
    ensures
        a == b,
    decreases a.len(),
{
    if a.len() == 0 {
        if b.len() > 0 {
            assert(b.to_set().contains(b[0]));
        }
        assert(a =~= b);
    } else {
        assert(a.to_set().contains(a[0]));
        assert(b.len() > 0);
        assert(b.to_set().contains(b[0]));
        let k = choose|k: int| 0 <= k < a.len() && a[k] == b[0];
        let m = choose|m: int| 0 <= m < b.len() && b[m] == a[0];
        if k > 0 && m > 0 {
            assert(a[0].key_lt(a[k]));
            assert(b[0].key_lt(b[m]));
        }
        assert(a[0] == b[0]);
        let a1 = a.drop_first();
        let b1 = b.drop_first();
        assert(sorted_strict(a1)) by {
            assert forall|x: int, y: int| 0 <= x < y < a1.len() implies (#[trigger] a1[x]).key_lt(#[trigger] a1[y]) by {
                assert(a1[x] == a[x + 1] && a1[y] == a[y + 1]);
            }
        }
        assert(sorted_strict(b1)) by {
            assert forall|x: int, y: int| 0 <= x < y < b1.len() implies (#[trigger] b1[x]).key_lt(#[trigger] b1[y]) by {
                assert(b1[x] == b[x + 1] && b1[y] == b[y + 1]);
            }
        }
        assert(a1.to_set() =~= b1.to_set()) by {
            assert forall|v: MigrationView| a1.to_set().contains(v) implies b1.to_set().contains(v) by {
                let x = choose|x: int| 0 <= x < a1.len() && a1[x] == v;
                assert(a[0].key_lt(a[x + 1]));
                assert(b.to_set().contains(v));
                let y = choose|y: int| 0 <= y < b.len() && b[y] == v;
                assert(y != 0);
                assert(b1[y - 1] == v);
            }
            assert forall|v: MigrationView| b1.to_set().contains(v) implies a1.to_set().contains(v) by {
                let x = choose|x: int| 0 <= x < b1.len() && b1[x] == v;
                assert(b[0].key_lt(b[x + 1]));
                assert(a.to_set().contains(v));
                let y = choose|y: int| 0 <= y < a.len() && a[y] == v;
                assert(y != 0);
                assert(a1[y - 1] == v);
            }
        }
        lemma_sorted_unique(a1, b1);
        assert(a1.len() == a.len() - 1);
        assert(b1.len() == b.len() - 1);
        assert(a.len() == b.len());
        assert(a =~= b) by {
            assert forall|x: int| 0 <= x < a.len() implies a[x] == b[x] by {
                if x > 0 {
                    assert(a[x] == a1[x - 1]);
                    assert(b[x] == b1[x - 1]);
                }
            }
        }
    }
}

/// Resolution depends on the files alone, not on the order in which they are
/// listed: two listings of the same files resolve to identical migration sets,
/// with byte-identical checksums.
pub proof fn lemma_resolution_deterministic(
    s1: Seq<SourceView>,
    s2: Seq<SourceView>,
    settings: ResolveSettings,
    set1: MigrationSet,
    set2: MigrationSet,
)
    requires
        s1.to_set() == s2.to_set(),
        set1.wf(),
        set2.wf(),
        set1@.to_set() == resolved(s1, settings),
        set2@.to_set() == resolved(s2, settings),
    ensures
        set1@ == set2@,
        forall|i: int| 0 <= i < set1@.len() ==> (#[trigger] set1@[i]).checksum == set2@[i].checksum,
{
    assert(resolved(s1, settings) =~= resolved(s2, settings)) by {
        assert forall|m: MigrationView| resolved(s1, settings).contains(m) implies resolved(s2, settings).contains(m) by {
            let i = choose|i: int| 0 <= i < s1.len() && migration_of(s1[i], settings) == Some(m);
            assert(s1.to_set().contains(s1[i]));
            assert(s2.to_set().contains(s1[i]));
        }
        assert forall|m: MigrationView| resolved(s2, settings).contains(m) implies resolved(s1, settings).contains(m) by {
            let i = choose|i: int| 0 <= i < s2.len() && migration_of(s2[i], settings) == Some(m);
            assert(s2.to_set().contains(s2[i]));
            assert(s1.to_set().contains(s2[i]));
        }
    }
    lemma_sorted_unique(set1@, set2@);
}

} // verus!
