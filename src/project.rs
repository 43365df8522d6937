use vstd::prelude::*;
use crate::clock::{date_text, format_date, format_time, local_clock, representable, time_text, Clock};
use crate::config::Config;
use crate::entry::{Entry, Meta, Stamp};
use crate::text::{chars_of, decimal, push_all, push_decimal, string_of};

verus! {

/// How a field is padded to its column's width.
#[derive(PartialEq, Eq, Structural, Clone, Copy)]
pub enum Align {
    /// Padding after the text.
    Left,
    /// Padding before the text.
    Right,
    /// Never padded: the closing name field.
    Unpadded,
}

/// One display field of a row.
pub struct Field {
    pub text: String,
    pub align: Align,
}

impl View for Field {
    type V = (Seq<char>, Align);

    open spec fn view(&self) -> (Seq<char>, Align) {
        (self.text@, self.align)
    }
}

/// Why an entry could not be projected.
#[derive(PartialEq, Eq, Structural, Clone, Copy)]
pub enum ProjectError {
    /// No account has this uid.
    UnknownUser(u32),
    /// No group has this gid.
    UnknownGroup(u32),
    /// A timestamp has no local-time reading.
    BadTime,
}

/// Whether the mode has the bit of the given place value set.
pub open spec fn has_bit(mode: u32, place: nat) -> bool {
    (mode as nat / place) % 2 == 1
}

/// The file-type letter, from the four type bits above the permissions.
pub open spec fn type_letter(mode: u32) -> char {
    let t = (mode as nat / 4096) % 16;
    if t == 1 { 'p' }
    else if t == 2 { 'c' }
    else if t == 4 { 'd' }
    else if t == 6 { 'b' }
    else if t == 8 { '-' }
    else if t == 10 { 'l' }
    else if t == 12 { 's' }
    else if t == 14 { 'w' }
    else { '?' }
}

/// A read or write position: its letter when allowed, else `-`.
pub open spec fn perm_char(allowed: bool, letter: char) -> char {
    if allowed { letter } else { '-' }
}

/// An execute position: with its special bit, `on` or `off` by the execute
/// bit; without it, `x` or `-`.
pub open spec fn exec_char(allowed: bool, special: bool, on: char, off: char) -> char {
    if special {
        if allowed { on } else { off }
    } else if allowed {
        'x'
    } else {
        '-'
    }
}

/// The `ls`-style permission string of a mode: type letter, then the user,
/// group and other triples, with setuid, setgid and sticky shown as s/S,
/// s/S and t/T in the execute positions.
pub open spec fn mode_text(mode: u32) -> Seq<char> {
    seq![
        type_letter(mode),
        perm_char(has_bit(mode, 256), 'r'),
        perm_char(has_bit(mode, 128), 'w'),
        exec_char(has_bit(mode, 64), has_bit(mode, 2048), 's', 'S'),
        perm_char(has_bit(mode, 32), 'r'),
        perm_char(has_bit(mode, 16), 'w'),
        exec_char(has_bit(mode, 8), has_bit(mode, 1024), 's', 'S'),
        perm_char(has_bit(mode, 4), 'r'),
        perm_char(has_bit(mode, 2), 'w'),
        exec_char(has_bit(mode, 1), has_bit(mode, 512), 't', 'T'),
    ]
}

/// Relies on `unix_mode::to_string`: the ten-character `ls`-style permission
/// string of a mode, decoded from its bits as `mode_text` states.
#[verifier::external_body]
pub(crate) fn mode_string(mode: u32) -> (r: String)
    ensures
        r@ == mode_text(mode),
{
    unix_mode::to_string(mode)
}

/// The views of a row's fields.
pub open spec fn row_view(r: Seq<Field>) -> Seq<(Seq<char>, Align)> {
    r.map_values(|f: Field| f@)
}

/// The block count shown: a symlink is charged nothing, else the blocks in
/// units of the block size over 512.
pub open spec fn blocks_shown(m: Meta) -> nat {
    if m.is_symlink {
        0
    } else {
        (m.blocks / (m.block_size / 512)) as nat
    }
}

/// The name field: the name, with ` -> ` and the target for a symlink in detailed mode.
pub open spec fn name_text(cfg: Config, e: Entry) -> Seq<char> {
    if cfg.detailed && e.meta.is_symlink {
        e.name@ + seq![' ', '-', '>', ' '] + e.meta.link_target->Some_0@
    } else {
        e.name@
    }
}

/// Owner/group fields use names unless numeric ids are asked for.
pub open spec fn needs_names(cfg: Config) -> bool {
    cfg.detailed && !cfg.numeric_ids
}

/// The owner, group or author field: the number, or the resolved name.
pub open spec fn id_field(cfg: Config, id: u32, name: Option<String>) -> (Seq<char>, Align) {
    if cfg.numeric_ids {
        (decimal(id as nat), Align::Right)
    } else {
        (name->Some_0@, Align::Left)
    }
}

/// The detailed-mode fields, from the mode string to the primary time.
pub open spec fn detail_fields(
    cfg: Config,
    m: Meta,
    mode: Seq<char>,
    created: Clock,
    primary: Clock,
) -> Seq<(Seq<char>, Align)> {
    seq![(mode, Align::Left), (decimal(m.nlink as nat), Align::Right)]
        + (if cfg.omit_owner { seq![] } else { seq![id_field(cfg, m.uid, m.owner)] })
        + (if cfg.omit_group { seq![] } else { seq![id_field(cfg, m.gid, m.group)] })
        + (if cfg.show_author { seq![id_field(cfg, m.uid, m.owner)] } else { seq![] })
        + seq![
        (decimal(m.size as nat), Align::Right),
        (date_text(created), Align::Left),
        (time_text(primary), Align::Left),
    ]
}

/// One entry's row, in the canonical field order.
pub open spec fn row_spec(
    cfg: Config,
    e: Entry,
    mode: Seq<char>,
    created: Clock,
    primary: Clock,
) -> Seq<(Seq<char>, Align)> {
    (if cfg.show_inode { seq![(decimal(e.meta.inode as nat), Align::Right)] } else { seq![] })
        + (if cfg.show_size { seq![(decimal(blocks_shown(e.meta)), Align::Right)] } else { seq![] })
        + (if cfg.detailed { detail_fields(cfg, e.meta, mode, created, primary) } else { seq![] })
        + seq![(name_text(cfg, e), Align::Unpadded)]
}

/// The number of fields in every row under this configuration.
pub open spec fn field_count(cfg: Config) -> nat {
    (if cfg.show_inode { 1nat } else { 0 }) + (if cfg.show_size { 1nat } else { 0 }) + (if cfg.detailed {
        5 + (if cfg.omit_owner { 0nat } else { 1 }) + (if cfg.omit_group { 0nat } else { 1 }) + (
        if cfg.show_author { 1nat } else { 0 })
    } else {
        0
    }) + 1
}

/// What projection needs of the metadata: a block size of at least one
/// 512-byte unit where blocks are counted, and a stored target where a
/// symlink's name shows it.
pub open spec fn usable(cfg: Config, m: Meta) -> bool {
    &&& cfg.show_size && !m.is_symlink ==> m.block_size >= 512
    &&& cfg.detailed && m.is_symlink ==> m.link_target is Some
}

/// The stamp of the primary time field: creation with creation time, else modification.
pub open spec fn primary_of(cfg: Config, m: Meta) -> Stamp {
    if cfg.creation_time { m.created } else { m.modified }
}

/// Picks the stamp of the primary time field.
pub fn primary_stamp(cfg: &Config, m: &Meta) -> (r: Stamp)
    ensures
        r == primary_of(*cfg, *m),
{
    if cfg.creation_time { m.created } else { m.modified }
}

/// Both stamps that a detailed row reads are within the representable range.
pub open spec fn times_representable(cfg: Config, m: Meta) -> bool {
    representable(m.created) && representable(primary_of(cfg, m))
}

/// The error that projection owes before any time is read, if any.
pub open spec fn identity_error(cfg: Config, m: Meta) -> Option<ProjectError> {
    if needs_names(cfg) && m.owner is None {
        Some(ProjectError::UnknownUser(m.uid))
    } else if needs_names(cfg) && m.group is None {
        Some(ProjectError::UnknownGroup(m.gid))
    } else {
        None
    }
}

fn number_field(n: u64) -> (f: Field)
    ensures
        f@ == (decimal(n as nat), Align::Right),
{
    let mut v: Vec<char> = Vec::new();
    push_decimal(&mut v, n);
    assert(v@ =~= decimal(n as nat));
    Field { text: string_of(&v), align: Align::Right }
}

fn id_field_exec(cfg: &Config, id: u32, name: &Option<String>) -> (f: Field)
    requires
        !cfg.numeric_ids ==> name is Some,
    ensures
        f@ == id_field(*cfg, id, *name),
{
    if cfg.numeric_ids {
        number_field(id as u64)
    } else {
        Field { text: name.as_ref().unwrap().clone(), align: Align::Left }
    }
}

fn push_field(row: &mut Vec<Field>, f: Field)
    ensures
        row_view(final(row)@) == row_view(old(row)@).push(f@),
{
    row.push(f);
    assert(row_view(row@) =~= row_view(old(row)@).push(f@));
}

fn push_details(
    row: &mut Vec<Field>,
    cfg: &Config,
    m: &Meta,
    mode: &String,
    created: &Clock,
    primary: &Clock,
)
    requires
        created.wf(),
        primary.wf(),
        needs_names(*cfg) ==> m.owner is Some && m.group is Some,
        cfg.detailed,
    ensures
        row_view(final(row)@) == row_view(old(row)@) + detail_fields(*cfg, *m, mode@, *created, *primary),
{
    let ghost b = row_view(row@);
    push_field(row, Field { text: mode.clone(), align: Align::Left });
    push_field(row, number_field(m.nlink));
    let ghost t0 = row_view(row@);
    assert(t0 == b + seq![(mode@, Align::Left), (decimal(m.nlink as nat), Align::Right)]);
    if !cfg.omit_owner {
        push_field(row, id_field_exec(cfg, m.uid, &m.owner));
    }
    if !cfg.omit_group {
        push_field(row, id_field_exec(cfg, m.gid, &m.group));
    }
    if cfg.show_author {
        push_field(row, id_field_exec(cfg, m.uid, &m.owner));
    }
    push_field(row, number_field(m.size));
    push_field(row, Field { text: format_date(created), align: Align::Left });
    push_field(row, Field { text: format_time(primary), align: Align::Left });
    assert(row_view(row@) =~= b + detail_fields(*cfg, *m, mode@, *created, *primary));
}

/// Builds one entry's row from its metadata, the permission string, and the
/// two clock readings (creation, and the primary time).
pub fn project_row(
    cfg: &Config,
    e: &Entry,
    mode: &String,
    created: &Clock,
    primary: &Clock,
) -> (r: Result<Vec<Field>, ProjectError>)
    requires
        usable(*cfg, e.meta),
        created.wf(),
        primary.wf(),
    ensures
        identity_error(*cfg, e.meta) matches Some(err) ==> r == Err::<Vec<Field>, ProjectError>(err),
        identity_error(*cfg, e.meta) is None ==> (r matches Ok(row) && row_view(row@) == row_spec(
            *cfg,
            *e,
            mode@,
            *created,
            *primary,
        )),
{
    let m = &e.meta;
    if cfg.detailed && !cfg.numeric_ids {
        if m.owner.is_none() {
            return Err(ProjectError::UnknownUser(m.uid));
        }
        if m.group.is_none() {
            return Err(ProjectError::UnknownGroup(m.gid));
        }
    }
    let mut row: Vec<Field> = Vec::new();
    let ghost s0 = if cfg.show_inode { seq![(decimal(m.inode as nat), Align::Right)] } else { seq![] };
    if cfg.show_inode {
        push_field(&mut row, number_field(m.inode));
    }
    assert(row_view(row@) =~= s0);
    let ghost s1 = if cfg.show_size { seq![(decimal(blocks_shown(*m)), Align::Right)] } else { seq![] };
    if cfg.show_size {
        let blocks = if m.is_symlink { 0 } else { m.blocks / (m.block_size / 512) };
        push_field(&mut row, number_field(blocks));
    }
    assert(row_view(row@) =~= s0 + s1);
    let ghost d = if cfg.detailed { detail_fields(*cfg, *m, mode@, *created, *primary) } else { seq![] };
    if cfg.detailed {
        push_details(&mut row, cfg, m, mode, created, primary);
    }
    assert(row_view(row@) =~= s0 + s1 + d);
    let mut name = chars_of(e.name.as_str());
    if cfg.detailed && m.is_symlink {
        let arrow = vec![' ', '-', '>', ' '];
        push_all(&mut name, &arrow);
        let target = chars_of(m.link_target.as_ref().unwrap().as_str());
        push_all(&mut name, &target);
    }
    assert(name@ =~= name_text(*cfg, *e));
    push_field(&mut row, Field { text: string_of(&name), align: Align::Unpadded });
    assert(row_view(row@) =~= row_spec(*cfg, *e, mode@, *created, *primary));
    Ok(row)
}

/// Projects one entry: resolves the permission string, and the local times
/// of the creation stamp and of the primary stamp, then builds its row.
pub fn project_entry(cfg: &Config, e: &Entry) -> (r: Result<Vec<Field>, ProjectError>)
    requires
        usable(*cfg, e.meta),
    ensures
        identity_error(*cfg, e.meta) matches Some(err) ==> r == Err::<Vec<Field>, ProjectError>(err),
        identity_error(*cfg, e.meta) is None ==> (r is Ok || r == Err::<Vec<Field>, ProjectError>(
            ProjectError::BadTime,
        )),
        identity_error(*cfg, e.meta) is None && (!cfg.detailed || times_representable(*cfg, e.meta))
            ==> r is Ok,
        r matches Ok(row) ==> exists|c: Clock, p: Clock|
            c.wf() && p.wf() && row_view(row@) == row_spec(*cfg, *e, mode_text(e.meta.mode), c, p),
{
    let mode = mode_string(e.meta.mode);
    // A compact row has no time fields, and a missing name fails the row
    // before any time is read: neither needs a clock reading.
    let unused = Clock { month: 1, day: 1, hour: 0, minute: 0 };
    if !cfg.detailed || (!cfg.numeric_ids && (e.meta.owner.is_none() || e.meta.group.is_none())) {
        return project_row(cfg, e, &mode, &unused, &unused);
    }
    let created = match local_clock(&e.meta.created) {
        Some(c) => c,
        None => {
            return Err(ProjectError::BadTime);
        },
    };
    let primary = match local_clock(&primary_stamp(cfg, &e.meta)) {
        Some(c) => c,
        None => {
            return Err(ProjectError::BadTime);
        },
    };
    project_row(cfg, e, &mode, &created, &primary)
}

} // verus!
