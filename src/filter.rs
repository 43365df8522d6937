use vstd::prelude::*;
use crate::config::Config;
use crate::text::chars_of;

verus! {

/// A name that starts with `.`.
pub open spec fn is_hidden(name: Seq<char>) -> bool {
    name.len() > 0 && name[0] == '.'
}

/// A name that ends with `~`.
pub open spec fn is_backup(name: Seq<char>) -> bool {
    name.len() > 0 && name.last() == '~'
}

/// Whether a directory entry of this name survives the hidden and backup rules.
pub open spec fn shown(cfg: Config, name: Seq<char>) -> bool {
    &&& (cfg.show_all || cfg.almost_all || !is_hidden(name))
    &&& !(cfg.ignore_backups && is_backup(name))
}

/// The names that survive the rules, in read order.
pub open spec fn kept(cfg: Config, names: Seq<Seq<char>>) -> Seq<Seq<char>>
    decreases names.len(),
{
    if names.len() == 0 {
        seq![]
    } else {
        let rest = kept(cfg, names.drop_last());
        if shown(cfg, names.last()) {
            rest.push(names.last())
        } else {
            rest
        }
    }
}

/// The two synthetic entries, `.` and `..`.
pub open spec fn synthetic() -> Seq<Seq<char>> {
    seq![seq!['.'], seq!['.', '.']]
}

/// The visible names of one directory: the kept ones, then `.` and `..` with show-all.
pub open spec fn filtered(cfg: Config, names: Seq<Seq<char>>) -> Seq<Seq<char>> {
    if cfg.show_all {
        kept(cfg, names) + synthetic()
    } else {
        kept(cfg, names)
    }
}

/// Decides whether a directory entry of this name is listed.
pub fn is_shown(cfg: &Config, name: &String) -> (r: bool)
    ensures
        r == shown(*cfg, name@),
{
    let cs = chars_of(name.as_str());
    let n = cs.len();
    let hidden = n > 0 && cs[0] == '.';
    let backup = n > 0 && cs[n - 1] == '~';
    (cfg.show_all || cfg.almost_all || !hidden) && !(cfg.ignore_backups && backup)
}

/// The names of one directory that are listed, in read order, followed by
/// `.` and `..` when show-all is set.
pub fn filter_names(cfg: &Config, names: &Vec<String>) -> (r: Vec<String>)
    ensures
        r.deep_view() == filtered(*cfg, names.deep_view()),
{
    let ghost all = names.deep_view();
    let mut r: Vec<String> = Vec::new();
    let mut i: usize = 0;
    while i < names.len()
        invariant
            i <= names@.len(),
            all == names.deep_view(),
            r.deep_view() == kept(*cfg, all.subrange(0, i as int)),
        decreases names@.len() - i,
    {
        let ghost before = r.deep_view();
        assert(all.subrange(0, i + 1 as int).drop_last() == all.subrange(0, i as int));
        if is_shown(cfg, &names[i]) {
            r.push(names[i].clone());
            assert(r.deep_view() == before.push(names@[i as int]@));
        }
        i = i + 1;
    }
    assert(all.subrange(0, names@.len() as int) == all);
    if cfg.show_all {
        let ghost before = r.deep_view();
        let dot = ".".to_owned();
        let dotdot = "..".to_owned();
        proof {
            reveal_strlit(".");
            reveal_strlit("..");
        }
        assert(dot@ =~= seq!['.']);
        assert(dotdot@ =~= seq!['.', '.']);
        r.push(dot);
        r.push(dotdot);
        assert(r.deep_view() =~= before + synthetic());
    }
    r
}

/// The synthetic `.` and `..` close the list exactly when show-all is set,
/// whatever the backup rule says; without show-all nothing is appended, and
/// without almost-all either, no hidden name (`.` and `..` among them) is listed.
pub proof fn lemma_synthetic_entries(cfg: Config, names: Seq<Seq<char>>)
    ensures
        cfg.show_all ==> filtered(cfg, names).len() >= 2,
        cfg.show_all ==> filtered(cfg, names).subrange(
            filtered(cfg, names).len() - 2,
            filtered(cfg, names).len() as int,
        ) == synthetic(),
        !cfg.show_all ==> filtered(cfg, names) == kept(cfg, names),
        !cfg.show_all && !cfg.almost_all ==> forall|k: int|
            0 <= k < filtered(cfg, names).len() ==> !is_hidden(#[trigger] filtered(cfg, names)[k]),
    decreases names.len(),
{
    lemma_kept_shown(cfg, names);
    if cfg.show_all {
        let f = filtered(cfg, names);
        assert(f.subrange(f.len() - 2, f.len() as int) == synthetic());
    }
}

/// Every kept name is shown.
pub proof fn lemma_kept_shown(cfg: Config, names: Seq<Seq<char>>)
    ensures
        forall|k: int| 0 <= k < kept(cfg, names).len() ==> shown(cfg, #[trigger] kept(cfg, names)[k]),
    decreases names.len(),
{
    if names.len() > 0 {
        lemma_kept_shown(cfg, names.drop_last());
        let rest = kept(cfg, names.drop_last());
        assert forall|k: int| 0 <= k < kept(cfg, names).len() implies shown(
            cfg,
            #[trigger] kept(cfg, names)[k],
        ) by {
            if k < rest.len() {
                assert(kept(cfg, names)[k] == rest[k]);
            }
        }
    }
}

} // verus!
