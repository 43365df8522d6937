use vstd::prelude::*;
use crate::clock::Clock;
use crate::config::Config;
use crate::entry::Entry;
use crate::order::{
    dirs_of, files_of, lemma_ordered_permutes, order_entries, ordered, reverse_entries, sort_by,
    sort_entries_by, SortKey,
};
use crate::project::{
    field_count, identity_error, mode_text, project_entry, row_spec, row_view, times_representable,
    usable, Align, Field, ProjectError,
};
use crate::render::{grid_view, render, rendered, uniform};
use crate::text::{chars_of, decimal, push_all, push_decimal, string_of};

verus! {

/// `row` is the entry's row for some pair of valid clock readings.
pub open spec fn row_of(cfg: Config, e: Entry, row: Seq<(Seq<char>, Align)>) -> bool {
    exists|c: Clock, p: Clock| c.wf() && p.wf() && row == row_spec(cfg, e, mode_text(e.meta.mode), c, p)
}

/// `g` holds one row per entry of `s`, in order, each projected with some
/// pair of valid clock readings.
pub open spec fn rows_of(cfg: Config, s: Seq<Entry>, g: Seq<Seq<(Seq<char>, Align)>>) -> bool {
    &&& g.len() == s.len()
    &&& forall|i: int| 0 <= i < s.len() ==> row_of(cfg, s[i], #[trigger] g[i])
}

/// Some entry of `s` lacks a name that its row needs.
pub open spec fn some_identity_error(cfg: Config, s: Seq<Entry>) -> bool {
    exists|i: int| 0 <= i < s.len() && (#[trigger] identity_error(cfg, s[i].meta)) is Some
}

/// Entry `i` of `s` is where projection stops with `err`: no entry before it
/// lacks a needed name, and it lacks one (with that error), or it is detailed
/// and one of its stamps is outside the representable range (a time error).
pub open spec fn fails_at(cfg: Config, s: Seq<Entry>, i: int, err: ProjectError) -> bool {
    &&& 0 <= i < s.len()
    &&& forall|t: int| 0 <= t < i ==> (#[trigger] identity_error(cfg, s[t].meta)) is None
    &&& match identity_error(cfg, s[i].meta) {
        Some(e) => err == e,
        None => err == ProjectError::BadTime && cfg.detailed && !times_representable(cfg, s[i].meta),
    }
}

/// Every entry has the names its row needs and, in detailed mode, stamps in range.
pub open spec fn listable(cfg: Config, s: Seq<Entry>) -> bool {
    forall|i: int|
        0 <= i < s.len() ==> (#[trigger] identity_error(cfg, s[i].meta)) is None && (!cfg.detailed
            || times_representable(cfg, s[i].meta))
}

/// Every row has `field_count` fields.
pub proof fn lemma_row_len(cfg: Config, e: Entry, mode: Seq<char>, c: Clock, p: Clock)
    ensures
        row_spec(cfg, e, mode, c, p).len() == field_count(cfg),
{
}

/// Orders, projects and renders the entries of one listing.
pub fn list_entries(cfg: &Config, entries: Vec<Entry>) -> (r: Result<String, ProjectError>)
    requires
        forall|i: int| 0 <= i < entries@.len() ==> usable(*cfg, (#[trigger] entries@[i]).meta),
    ensures
        r matches Ok(s) ==> exists|g: Seq<Seq<(Seq<char>, Align)>>|
            rows_of(*cfg, ordered(*cfg, entries@), g) && s@ == rendered(g, cfg.detailed),
        r matches Err(err) ==> exists|i: int| fails_at(*cfg, ordered(*cfg, entries@), i, err),
        listable(*cfg, ordered(*cfg, entries@)) ==> r is Ok,
        some_identity_error(*cfg, ordered(*cfg, entries@)) ==> r is Err,
        !cfg.detailed ==> r is Ok,
        entries@.len() == 0 ==> (r matches Ok(s) && s@.len() == 0),
{
    let ghost orig = entries@;
    assert(orig.len() == entries@.len());
    let mut v = entries;
    if v.len() == 0 {
        let empty = String::new();
        proof {
            let g = Seq::<Seq<(Seq<char>, Align)>>::empty();
            lemma_ordered_permutes(*cfg, orig);
            assert(rows_of(*cfg, ordered(*cfg, orig), g));
            assert(empty@ =~= rendered(g, cfg.detailed));
        }
        return Ok(empty);
    }
    order_entries(cfg, &mut v);
    proof {
        lemma_ordered_permutes(*cfg, orig);
        orig.to_multiset_ensures();
        v@.to_multiset_ensures();
        assert forall|i: int| 0 <= i < v@.len() implies usable(*cfg, (#[trigger] v@[i]).meta) by {
            assert(v@.contains(v@[i]));
            assert(v@.to_multiset().count(v@[i]) > 0);
            assert(orig.contains(v@[i]));
        }
    }
    let mut grid: Vec<Vec<Field>> = Vec::new();
    let mut i: usize = 0;
    while i < v.len()
        invariant
            i <= v@.len(),
            v@ == ordered(*cfg, orig),
            v@.len() == orig.len(),
            orig == entries@,
            forall|t: int| 0 <= t < v@.len() ==> usable(*cfg, (#[trigger] v@[t]).meta),
            grid@.len() == i,
            rows_of(*cfg, v@.subrange(0, i as int), grid_view(grid@)),
            forall|t: int| 0 <= t < i ==> (#[trigger] identity_error(*cfg, v@[t].meta)) is None,
            forall|t: int| 0 <= t < i ==> (#[trigger] grid_view(grid@)[t]).len() == field_count(*cfg),
        decreases v@.len() - i,
    {
        let row = match project_entry(cfg, &v[i]) {
            Ok(row) => row,
            Err(e) => {
                assert(fails_at(*cfg, v@, i as int, e));
                return Err(e);
            },
        };
        let ghost gv0 = grid_view(grid@);
        proof {
            let w = choose|c: Clock, p: Clock|
                c.wf() && p.wf() && row_view(row@) == row_spec(*cfg, v@[i as int], mode_text(v@[i as int].meta.mode), c, p);
            lemma_row_len(*cfg, v@[i as int], mode_text(v@[i as int].meta.mode), w.0, w.1);
        }
        grid.push(row);
        proof {
            let gv = grid_view(grid@);
            let s = v@.subrange(0, i + 1 as int);
            assert(gv == gv0.push(row_view(row@)));
            assert(identity_error(*cfg, v@[i as int].meta) is None);
            assert(s[i as int] == v@[i as int]);
            assert(gv[i as int] == row_view(row@));
            assert(gv.len() == s.len());
            assert forall|t: int| 0 <= t < s.len() implies row_of(*cfg, s[t], #[trigger] gv[t]) by {
                if t < i {
                    assert(s[t] == v@.subrange(0, i as int)[t]);
                    assert(gv[t] == gv0[t]);
                    assert(row_of(*cfg, v@.subrange(0, i as int)[t], gv0[t]));
                } else {
                    assert(t == i);
                }
            }
            assert(rows_of(*cfg, s, gv));
        }
        i = i + 1;
    }
    assert(v@.subrange(0, v@.len() as int) == v@);
    proof {
        let gv = grid_view(grid@);
        if gv.len() > 0 {
            assert forall|t: int| 0 <= t < gv.len() implies (#[trigger] gv[t]).len() == gv[0].len() by {}
        }
    }
    let text = render(&grid, cfg.detailed);
    Ok(text)
}

/// The text of one directory: in detailed mode a `total <n>` line, then the listing.
pub open spec fn block_text(cfg: Config, total: u64, body: Seq<char>) -> Seq<char> {
    if cfg.detailed {
        seq!['t', 'o', 't', 'a', 'l', ' '] + decimal(total as nat) + seq!['\n'] + body
    } else {
        body
    }
}

/// Puts the block-usage line, in detailed mode, before a directory's listing.
pub fn directory_text(cfg: &Config, total: u64, body: &String) -> (r: String)
    ensures
        r@ == block_text(*cfg, total, body@),
{
    let b = chars_of(body.as_str());
    let mut out: Vec<char> = Vec::new();
    if cfg.detailed {
        out = vec!['t', 'o', 't', 'a', 'l', ' '];
        push_decimal(&mut out, total);
        out.push('\n');
    }
    push_all(&mut out, &b);
    assert(out@ =~= block_text(*cfg, total, body@));
    string_of(&out)
}

} // verus!

verus! {

/// The targets listed as entries themselves: all of them when directories
/// are not expanded, else those that are not directories, in the given order.
pub open spec fn target_files(cfg: Config, s: Seq<Entry>) -> Seq<Entry> {
    if cfg.targets_as_entries { s } else { files_of(s) }
}

/// The directory targets whose contents are listed: by name, reversed when asked.
pub open spec fn target_dirs(cfg: Config, s: Seq<Entry>) -> Seq<Entry> {
    if cfg.targets_as_entries {
        seq![]
    } else {
        let d = sort_by(SortKey::Name, dirs_of(s));
        if cfg.reverse { d.reverse() } else { d }
    }
}

/// Splits the targets into those listed as entries and the directories to expand.
pub fn split_targets(cfg: &Config, targets: Vec<Entry>) -> (r: (Vec<Entry>, Vec<Entry>))
    ensures
        r.0@ == target_files(*cfg, targets@),
        r.1@ == target_dirs(*cfg, targets@),
{
    if cfg.targets_as_entries {
        return (targets, Vec::new());
    }
    let ghost orig = targets@;
    let n = targets.len();
    let mut v = targets;
    let mut files: Vec<Entry> = Vec::new();
    let mut dirs: Vec<Entry> = Vec::new();
    let mut i: usize = 0;
    while v.len() > 0
        invariant
            i <= n,
            n == orig.len(),
            orig == targets@,
            v@ == orig.subrange(i as int, n as int),
            files@ == files_of(orig.subrange(0, i as int)),
            dirs@ == dirs_of(orig.subrange(0, i as int)),
        decreases v@.len(),
    {
        let x = v.remove(0);
        assert(orig.subrange(0, i + 1 as int).drop_last() == orig.subrange(0, i as int));
        assert(orig.subrange(0, i + 1 as int).last() == x);
        if x.is_dir {
            dirs.push(x);
        } else {
            files.push(x);
        }
        i = i + 1;
        assert(v@ == orig.subrange(i as int, n as int));
    }
    assert(orig.subrange(0, n as int) == orig);
    sort_entries_by(&SortKey::Name, &mut dirs);
    if cfg.reverse {
        reverse_entries(&mut dirs);
    }
    (files, dirs)
}

/// One expanded directory: its header name and its rendered text.
pub struct DirBlock {
    pub name: String,
    pub body: String,
}

/// A block with its `<name>:` header.
pub open spec fn headed(b: DirBlock) -> Seq<char> {
    b.name@ + seq![':', '\n'] + b.body@
}

/// The first `n` headed blocks, with one blank line between neighbours.
pub open spec fn joined(bs: Seq<DirBlock>, n: int) -> Seq<char>
    decreases n,
{
    if n <= 0 {
        seq![]
    } else if n == 1 {
        headed(bs[0])
    } else {
        joined(bs, n - 1) + seq!['\n'] + headed(bs[n - 1])
    }
}

/// The whole output: the listing of the file targets, a blank line when
/// directories follow them, then the directory blocks (a lone directory with
/// no file targets goes without its header).
pub open spec fn composed(files_text: Seq<char>, n_files: nat, bs: Seq<DirBlock>) -> Seq<char> {
    let sep = if n_files > 0 && bs.len() > 0 { seq!['\n'] } else { seq![] };
    let dirs = if bs.len() == 1 && n_files == 0 { bs[0].body@ } else { joined(bs, bs.len() as int) };
    files_text + sep + dirs
}

fn push_string(out: &mut Vec<char>, s: &String)
    ensures
        final(out)@ == old(out)@ + s@,
{
    let cs = chars_of(s.as_str());
    push_all(out, &cs);
}

/// Assembles the output of a listing of explicit targets.
pub fn compose(files_text: &String, n_files: usize, blocks: &Vec<DirBlock>) -> (r: String)
    ensures
        r@ == composed(files_text@, n_files as nat, blocks@),
{
    let mut out: Vec<char> = Vec::new();
    push_string(&mut out, files_text);
    if n_files > 0 && blocks.len() > 0 {
        out.push('\n');
    }
    let ghost start = out@;
    if blocks.len() == 1 && n_files == 0 {
        push_string(&mut out, &blocks[0].body);
    } else {
        let mut i: usize = 0;
        while i < blocks.len()
            invariant
                i <= blocks@.len(),
                out@ == start + joined(blocks@, i as int),
            decreases blocks@.len() - i,
        {
            if i > 0 {
                out.push('\n');
            }
            push_string(&mut out, &blocks[i].name);
            out.push(':');
            out.push('\n');
            push_string(&mut out, &blocks[i].body);
            assert(out@ =~= start + joined(blocks@, i + 1));
            i = i + 1;
        }
    }
    assert(out@ =~= composed(files_text@, n_files as nat, blocks@));
    string_of(&out)
}

} // verus!
