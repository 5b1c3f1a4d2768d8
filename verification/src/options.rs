//! The option decoder: an ordered list of (name, value) pairs becomes a typed
//! configuration. Unrecognized names are skipped by design (forward
//! compatibility); a recognized name with a value of the wrong shape is the
//! only decode failure. Iterator-mode decoding never fails: a malformed mode
//! value is skipped, and a list without a well-formed mode yields the
//! default, iteration from the start.

use vstd::prelude::*;

use crate::codec::HostTerm;
use crate::errors::KvError;

verus! {

// Option names, as byte strings.
/// The bytes of "create_if_missing".
pub open spec fn name_create_if_missing() -> Seq<u8> {
    seq![99u8, 114, 101, 97, 116, 101, 95, 105, 102, 95, 109, 105, 115, 115, 105, 110, 103]
}

/// The bytes of "create_missing_column_families".
pub open spec fn name_create_missing_column_families() -> Seq<u8> {
    seq![99u8, 114, 101, 97, 116, 101, 95, 109, 105, 115, 115, 105, 110, 103, 95, 99, 111, 108,
        117, 109, 110, 95, 102, 97, 109, 105, 108, 105, 101, 115]
}

/// The bytes of "target_file_size".
pub open spec fn name_target_file_size() -> Seq<u8> {
    seq![116u8, 97, 114, 103, 101, 116, 95, 102, 105, 108, 101, 95, 115, 105, 122, 101]
}

/// The bytes of "iterator_mode".
pub open spec fn name_iterator_mode() -> Seq<u8> {
    seq![105u8, 116, 101, 114, 97, 116, 111, 114, 95, 109, 111, 100, 101]
}

/// The bytes of "start".
pub open spec fn name_start() -> Seq<u8> {
    seq![115u8, 116, 97, 114, 116]
}

/// The bytes of "end".
pub open spec fn name_end() -> Seq<u8> {
    seq![101u8, 110, 100]
}

/// The bytes of "from".
pub open spec fn name_from() -> Seq<u8> {
    seq![102u8, 114, 111, 109]
}

/// The bytes of "reverse".
pub open spec fn name_reverse() -> Seq<u8> {
    seq![114u8, 101, 118, 101, 114, 115, 101]
}

/// "create_if_missing" as a byte vector.
pub fn create_if_missing_name() -> (r: Vec<u8>)
    ensures
        r@ == name_create_if_missing(),
{
    let r: Vec<u8> = vec![99u8, 114, 101, 97, 116, 101, 95, 105, 102, 95, 109, 105, 115, 115, 105,
        110, 103];
    proof {
        assert(r@ =~= name_create_if_missing());
    }
    r
}

/// "create_missing_column_families" as a byte vector.
pub fn create_missing_column_families_name() -> (r: Vec<u8>)
    ensures
        r@ == name_create_missing_column_families(),
{
    let r: Vec<u8> = vec![99u8, 114, 101, 97, 116, 101, 95, 109, 105, 115, 115, 105, 110, 103, 95,
        99, 111, 108, 117, 109, 110, 95, 102, 97, 109, 105, 108, 105, 101, 115];
    proof {
        assert(r@ =~= name_create_missing_column_families());
    }
    r
}

/// "target_file_size" as a byte vector.
pub fn target_file_size_name() -> (r: Vec<u8>)
    ensures
        r@ == name_target_file_size(),
{
    let r: Vec<u8> = vec![116u8, 97, 114, 103, 101, 116, 95, 102, 105, 108, 101, 95, 115, 105,
        122, 101];
    proof {
        assert(r@ =~= name_target_file_size());
    }
    r
}

/// "iterator_mode" as a byte vector.
pub fn iterator_mode_name() -> (r: Vec<u8>)
    ensures
        r@ == name_iterator_mode(),
{
    let r: Vec<u8> = vec![105u8, 116, 101, 114, 97, 116, 111, 114, 95, 109, 111, 100, 101];
    proof {
        assert(r@ =~= name_iterator_mode());
    }
    r
}

/// "start" as a byte vector.
pub fn start_name() -> (r: Vec<u8>)
    ensures
        r@ == name_start(),
{
    let r: Vec<u8> = vec![115u8, 116, 97, 114, 116];
    proof {
        assert(r@ =~= name_start());
    }
    r
}

/// "end" as a byte vector.
pub fn end_name() -> (r: Vec<u8>)
    ensures
        r@ == name_end(),
{
    let r: Vec<u8> = vec![101u8, 110, 100];
    proof {
        assert(r@ =~= name_end());
    }
    r
}

/// "from" as a byte vector.
pub fn from_name() -> (r: Vec<u8>)
    ensures
        r@ == name_from(),
{
    let r: Vec<u8> = vec![102u8, 114, 111, 109];
    proof {
        assert(r@ =~= name_from());
    }
    r
}

/// "reverse" as a byte vector.
pub fn reverse_name() -> (r: Vec<u8>)
    ensures
        r@ == name_reverse(),
{
    let r: Vec<u8> = vec![114u8, 101, 118, 101, 114, 115, 101];
    proof {
        assert(r@ =~= name_reverse());
    }
    r
}

/// One (name, value) pair of a caller-supplied option list.
pub struct OptEntry {
    pub name: Vec<u8>,
    pub value: HostTerm,
}

/// The documented default size target of the engine's table files.
pub const DEFAULT_TARGET_FILE_SIZE: u64 = 67108864;

/// A typed configuration for opening a database, built once per open call.
#[derive(Clone, Copy, PartialEq, Eq, Structural, Debug)]
pub struct DbConfig {
    pub create_if_missing: bool,
    pub create_missing_column_families: bool,
    pub target_file_size: u64,
}

/// Every configuration field at its documented default.
pub open spec fn default_config() -> DbConfig {
    DbConfig {
        create_if_missing: false,
        create_missing_column_families: false,
        target_file_size: DEFAULT_TARGET_FILE_SIZE as u64,
    }
}

impl Default for DbConfig {
    /// The configuration an absent option list leaves in place.
    fn default() -> (r: DbConfig)
        ensures
            r == default_config(),
    {
        DbConfig {
            create_if_missing: false,
            create_missing_column_families: false,
            target_file_size: DEFAULT_TARGET_FILE_SIZE,
        }
    }
}

/// A cursor direction.
#[derive(Clone, Copy, PartialEq, Eq, Structural, Debug)]
pub enum Direction {
    Forward,
    Reverse,
}

/// Where a cursor starts and which way it moves.
pub enum IterMode {
    /// At the first key, moving forward.
    Start,
    /// Past the last key, moving backward.
    End,
    /// Seek to `key`, then move in direction `dir`.
    From { key: Vec<u8>, dir: Direction },
}

/// The mathematical value of an iterator mode: the seek key as a byte
/// sequence.
pub ghost enum ModeModel {
    Start,
    End,
    From { key: Seq<u8>, dir: Direction },
}

impl IterMode {
    /// The mode with its seek key abstracted to a byte sequence.
    pub open spec fn model(self) -> ModeModel {
        match self {
            IterMode::Start => ModeModel::Start,
            IterMode::End => ModeModel::End,
            IterMode::From { key, dir } => ModeModel::From { key: key@, dir },
        }
    }
}

/// Whether `name` is an option name this decoder recognizes.
pub open spec fn recognized(name: Seq<u8>) -> bool {
    ||| name == name_create_if_missing()
    ||| name == name_create_missing_column_families()
    ||| name == name_target_file_size()
    ||| name == name_iterator_mode()
}

/// The effect of one option entry on a configuration: `None` when a
/// recognized name carries a value of the wrong shape, otherwise the updated
/// (or, for unrecognized names, untouched) configuration.
pub open spec fn apply_config_opt(c: DbConfig, e: OptEntry) -> Option<DbConfig> {
    if e.name@ == name_create_if_missing() {
        match e.value {
            HostTerm::Bool(b) => Some(
                DbConfig {
                    create_if_missing: b,
                    create_missing_column_families: c.create_missing_column_families,
                    target_file_size: c.target_file_size,
                },
            ),
            _ => None,
        }
    } else if e.name@ == name_create_missing_column_families() {
        match e.value {
            HostTerm::Bool(b) => Some(
                DbConfig {
                    create_if_missing: c.create_if_missing,
                    create_missing_column_families: b,
                    target_file_size: c.target_file_size,
                },
            ),
            _ => None,
        }
    } else if e.name@ == name_target_file_size() {
        match e.value {
            HostTerm::Int(n) => Some(
                DbConfig {
                    create_if_missing: c.create_if_missing,
                    create_missing_column_families: c.create_missing_column_families,
                    target_file_size: n,
                },
            ),
            _ => None,
        }
    } else {
        Some(c)
    }
}

/// The configuration an option list decodes to, applied in order on top of
/// `c`; `None` exactly when some recognized entry has the wrong shape.
pub open spec fn decode_config_spec(entries: Seq<OptEntry>, c: DbConfig) -> Option<DbConfig>
    decreases entries.len(),
{
    if entries.len() == 0 {
        Some(c)
    } else {
        match apply_config_opt(c, entries[0]) {
            Some(c2) => decode_config_spec(entries.drop_first(), c2),
            None => None,
        }
    }
}

/// The iterator mode a well-shaped mode value denotes, or `None` for any
/// other value, which the scan skips.
pub open spec fn mode_of_value(v: HostTerm) -> Option<ModeModel> {
    match v {
        HostTerm::Name(n) => if n@ == name_start() {
            Some(ModeModel::Start)
        } else if n@ == name_end() {
            Some(ModeModel::End)
        } else {
            None
        },
        HostTerm::Tuple3(tag, key, dir) => match (*tag, *key) {
            (HostTerm::Name(t), HostTerm::Bin(k)) => if t@ == name_from() {
                Some(
                    ModeModel::From {
                        key: k@,
                        dir: match *dir {
                            HostTerm::Name(d) => if d@ == name_reverse() {
                                Direction::Reverse
                            } else {
                                Direction::Forward
                            },
                            _ => Direction::Forward,
                        },
                    },
                )
            } else {
                None
            },
            _ => None,
        },
        _ => None,
    }
}

/// The mode the first well-shaped "iterator_mode" entry denotes; `Start` when
/// there is none, malformed entries included.
pub open spec fn mode_spec(entries: Seq<OptEntry>) -> ModeModel
    decreases entries.len(),
{
    if entries.len() == 0 {
        ModeModel::Start
    } else if entries[0].name@ == name_iterator_mode() && mode_of_value(entries[0].value) is Some {
        mode_of_value(entries[0].value)->0
    } else {
        mode_spec(entries.drop_first())
    }
}

/// Decodes an option list into a database configuration, starting from the
/// defaults. Unrecognized names are ignored; a recognized name with a value
/// of the wrong shape is the one failure.
pub fn decode_db_config(entries: &Vec<OptEntry>) -> (r: Result<DbConfig, KvError>)
    ensures
        match r {
            Ok(c) => decode_config_spec(entries@, default_config()) == Some(c),
            Err(e) => decode_config_spec(entries@, default_config()) is None
                && e is BadOptionShape,
        },
{
    let n_cif = create_if_missing_name();
    let n_cmcf = create_missing_column_families_name();
    let n_tfs = target_file_size_name();
    let mut cfg = DbConfig::default();
    let mut i: usize = 0;
    proof {
        assert(entries@.skip(0) =~= entries@);
    }
    while i < entries.len()
        invariant
            i <= entries@.len(),
            n_cif@ == name_create_if_missing(),
            n_cmcf@ == name_create_missing_column_families(),
            n_tfs@ == name_target_file_size(),
            decode_config_spec(entries@, default_config()) == decode_config_spec(
                entries@.skip(i as int),
                cfg,
            ),
        decreases entries@.len() - i,
    {
        let e = &entries[i];
        proof {
            assert(entries@.skip(i as int)[0] == entries@[i as int]);
            assert(entries@.skip(i as int).drop_first() =~= entries@.skip(i as int + 1));
        }
        if crate::keys::key_eq(&e.name, &n_cif) {
            match &e.value {
                HostTerm::Bool(b) => {
                    cfg.create_if_missing = *b;
                },
                _ => {
                    return Err(KvError::BadOptionShape);
                },
            }
        } else if crate::keys::key_eq(&e.name, &n_cmcf) {
            match &e.value {
                HostTerm::Bool(b) => {
                    cfg.create_missing_column_families = *b;
                },
                _ => {
                    return Err(KvError::BadOptionShape);
                },
            }
        } else if crate::keys::key_eq(&e.name, &n_tfs) {
            match &e.value {
                HostTerm::Int(n) => {
                    cfg.target_file_size = *n;
                },
                _ => {
                    return Err(KvError::BadOptionShape);
                },
            }
        }
        i += 1;
    }
    proof {
        assert(entries@.skip(entries@.len() as int) =~= Seq::<OptEntry>::empty());
    }
    Ok(cfg)
}

/// Decodes the iterator mode from an option list. This never fails: the scan
/// takes the first well-shaped "iterator_mode" entry and skips everything
/// else, falling back to `Start`.
pub fn parse_iterator_opts(entries: &Vec<OptEntry>) -> (r: IterMode)
    ensures
        r.model() == mode_spec(entries@),
{
    let n_mode = iterator_mode_name();
    let n_start = start_name();
    let n_end = end_name();
    let n_from = from_name();
    let n_rev = reverse_name();
    let mut i: usize = 0;
    proof {
        assert(entries@.skip(0) =~= entries@);
    }
    while i < entries.len()
        invariant
            i <= entries@.len(),
            n_mode@ == name_iterator_mode(),
            n_start@ == name_start(),
            n_end@ == name_end(),
            n_from@ == name_from(),
            n_rev@ == name_reverse(),
            mode_spec(entries@) == mode_spec(entries@.skip(i as int)),
        decreases entries@.len() - i,
    {
        let e = &entries[i];
        proof {
            assert(entries@.skip(i as int)[0] == entries@[i as int]);
            assert(entries@.skip(i as int).drop_first() =~= entries@.skip(i as int + 1));
        }
        if crate::keys::key_eq(&e.name, &n_mode) {
            match &e.value {
                HostTerm::Name(n) => {
                    if crate::keys::key_eq(n, &n_start) {
                        return IterMode::Start;
                    }
                    if crate::keys::key_eq(n, &n_end) {
                        return IterMode::End;
                    }
                },
                HostTerm::Tuple3(tag, key, dir) => {
                    match (&**tag, &**key) {
                        (HostTerm::Name(t), HostTerm::Bin(k)) => {
                            if crate::keys::key_eq(t, &n_from) {
                                let d = match &**dir {
                                    HostTerm::Name(dn) => if crate::keys::key_eq(dn, &n_rev) {
                                        Direction::Reverse
                                    } else {
                                        Direction::Forward
                                    },
                                    _ => Direction::Forward,
                                };
                                return IterMode::From { key: crate::keys::copy_bytes(k), dir: d };
                            }
                        },
                        _ => {},
                    }
                },
                _ => {},
            }
        }
        i += 1;
    }
    proof {
        assert(entries@.skip(entries@.len() as int) =~= Seq::<OptEntry>::empty());
    }
    IterMode::Start
}

/// Unrecognized option names change nothing: a list with no recognized name
/// decodes to the default configuration and to the default iterator mode.
pub proof fn lemma_unrecognized_options_ignored(entries: Seq<OptEntry>, c: DbConfig)
    requires
        forall|i: int| 0 <= i < entries.len() ==> !recognized(#[trigger] entries[i].name@),
    ensures
        decode_config_spec(entries, c) == Some(c),
        mode_spec(entries) == ModeModel::Start,
    decreases entries.len(),
{
    if entries.len() > 0 {
        lemma_unrecognized_options_ignored(entries.drop_first(), c);
    }
}

/// A list whose "iterator_mode" entries are all malformed falls back to
/// `Start`, the default mode.
pub proof fn lemma_malformed_mode_falls_back(entries: Seq<OptEntry>)
    requires
        forall|i: int|
            0 <= i < entries.len() && (#[trigger] entries[i].name@) == name_iterator_mode()
                ==> mode_of_value(entries[i].value) is None,
    ensures
        mode_spec(entries) == ModeModel::Start,
    decreases entries.len(),
{
    if entries.len() > 0 {
        lemma_malformed_mode_falls_back(entries.drop_first());
    }
}

} // verus!
