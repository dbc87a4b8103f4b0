//! The build run in one verified core: populate the structure index from
//! per-directory page entries, sort it, and derive every per-page
//! navigation view. Reading directories and files, rendering HTML and
//! writing output around this core is the caller's business.
use vstd::prelude::*;

use crate::config_files::{MenuConfig, RawMenuItem, RawSocialItem};
use crate::errors::SiteError;
use crate::paths::{ancestors_of, count_slashes, parent_path_spec, wf_path};
use crate::structure::{Item, MenuItem, SocialItem, Structure, social_expected, sorted_items,
    is_side_item_of};
use crate::strutil::{clone_string_vec, starts_with_spec};

verus! {

/// One content directory's contribution: its item and its optional cached
/// notification lists.
pub struct PageEntry {
    pub item: Item,
    pub left_notifications: Option<Vec<String>>,
    pub right_notifications: Option<Vec<String>>,
}

/// The derived views of one page, ready for rendering.
pub struct PageModel {
    pub path: String,
    pub menu_item: MenuItem,
    pub side_menu: Option<MenuItem>,
    pub breadcrumbs: Option<Vec<MenuItem>>,
    pub left_notifications: Vec<String>,
    pub right_notifications: Vec<String>,
    pub side_notification_items: Vec<Item>,
}

/// Everything a run derives: the sorted index, the shared navigation, and
/// one model per page, in entry order.
pub struct SiteOutput {
    pub structure: Structure,
    pub main_menu: Vec<MenuItem>,
    pub socials: Vec<SocialItem>,
    pub pages: Vec<PageModel>,
}

/// No two entries share a path.
pub open spec fn no_duplicate_paths(entries: Seq<PageEntry>) -> bool {
    forall|i: int, j: int|
        0 <= i < j < entries.len() ==> (#[trigger] entries[i].item.path@) != (
        #[trigger] entries[j].item.path@)
}

/// The item map the entries build: each entry's item under its path.
pub open spec fn entries_item_map(entries: Seq<PageEntry>) -> Map<Seq<char>, Item> {
    Map::new(
        |k: Seq<char>| exists|i: int| 0 <= i < entries.len() && (#[trigger] entries[i].item.path@) == k,
        |k: Seq<char>|
            entries[choose|i: int|
                0 <= i < entries.len() && (#[trigger] entries[i].item.path@) == k].item,
    )
}

/// Whether some entry names `k` as its parent.
pub open spec fn entries_has_children(entries: Seq<PageEntry>, k: Seq<char>) -> bool {
    exists|i: int|
        0 <= i < entries.len() && parent_path_spec((#[trigger] entries[i].item.path@)) == Some(k)
}

/// The items of the entries whose parent is `k`, in entry order.
pub open spec fn entries_children(entries: Seq<PageEntry>, k: Seq<char>) -> Seq<Item> {
    entries.map_values(|e: PageEntry| e.item).filter(
        |it: Item| parent_path_spec(it.path@) == Some(k),
    )
}

/// Whether a social link can be classified: it matches a known platform, or
/// carries both an icon and a color.
pub open spec fn social_resolvable(e: RawSocialItem) -> bool {
    ||| starts_with_spec(e.url@, "https://github.com/"@)
    ||| starts_with_spec(e.url@, "https://www.linkedin.com/"@)
    ||| starts_with_spec(e.url@, "https://www.facebook.com/"@)
    ||| starts_with_spec(e.url@, "https://www.youtube.com/"@)
    ||| (e.icon is Some && e.color is Some)
}

/// Whether a main-menu entry can be resolved against an item map.
pub open spec fn menu_entry_resolvable(m: Map<Seq<char>, Item>, e: RawMenuItem) -> bool {
    if starts_with_spec(e.url@, "https://"@) {
        e.title is Some
    } else {
        m.contains_key(e.url@)
    }
}

/// Whether every lookup the per-page views need can be resolved.
pub open spec fn page_resolvable(
    m: Map<Seq<char>, Item>,
    hc: spec_fn(Seq<char>) -> bool,
    p: Seq<char>,
) -> bool {
    &&& m.contains_key(p)
    &&& (count_slashes(p) > 1 ==> forall|i: int|
        0 <= i < ancestors_of(p).len() ==> m.contains_key(#[trigger] ancestors_of(p)[i]))
    &&& ({
        let d = count_slashes(p);
        if d <= 2 {
            true
        } else if hc(p) {
            m.contains_key(p)
        } else if d == 3 {
            true
        } else {
            m.contains_key(parent_path_spec(p)->Some_0)
        }
    })
    &&& (hc(p) || (parent_path_spec(p) matches Some(q) && hc(q)))
}

/// Whether a run over these entries and this configuration succeeds: the
/// paths are distinct, every social link classifies, every main-menu entry
/// resolves, and every page's views resolve.
pub open spec fn generation_resolvable(entries: Seq<PageEntry>, cfg: MenuConfig) -> bool {
    let m = entries_item_map(entries);
    let hc = |k: Seq<char>| entries_has_children(entries, k);
    &&& no_duplicate_paths(entries)
    &&& (forall|i: int|
        0 <= i < cfg.socials@.len() ==> social_resolvable(#[trigger] cfg.socials@[i]))
    &&& (forall|i: int|
        0 <= i < cfg.main_menu@.len() ==> menu_entry_resolvable(m, #[trigger] cfg.main_menu@[i]))
    &&& (forall|i: int|
        0 <= i < entries.len() ==> page_resolvable(m, hc, (#[trigger] entries[i].item.path@)))
}

/// Build and sort the structure index from the entries: every item under
/// its path, every notification list cached at its path, every bucket
/// sorted. Two entries sharing a path are a fatal configuration error.
pub fn build_structure(entries: &Vec<PageEntry>) -> (r: Result<Structure, SiteError>)
    requires
        forall|i: int| 0 <= i < entries@.len() ==> wf_path((#[trigger] entries@[i].item.path@)),
    ensures
        r is Ok <==> no_duplicate_paths(entries@),
        r matches Err(e) ==> e matches SiteError::DuplicateItem(p) && (exists|i: int, j: int|
            0 <= i < j < entries@.len() && (#[trigger] entries@[i].item.path@) == (
            #[trigger] entries@[j].item.path@) && entries@[j].item.path@ == p@),
        r matches Ok(s) ==> {
            &&& s.wf()
            &&& s.is_read_phase()
            &&& s.item_map() == entries_item_map(entries@)
            &&& forall|k: Seq<char>|
                #[trigger] s.has_children(k) == entries_has_children(entries@, k)
            &&& forall|k: Seq<char>| #[trigger]
                s.has_children(k) ==> sorted_items(s.children_of(k)) && s.children_of(
                    k,
                ).to_multiset() == entries_children(entries@, k).to_multiset()
            &&& forall|i: int|
                0 <= i < entries@.len() && (#[trigger] entries@[i].left_notifications) is Some
                    ==> s.left_notifs().contains_key(entries@[i].item.path@) && s.left_notifs()[
                    entries@[i].item.path@] == entries@[i].left_notifications->Some_0.deep_view()
            &&& forall|i: int|
                0 <= i < entries@.len() && (#[trigger] entries@[i].right_notifications) is Some
                    ==> s.right_notifs().contains_key(entries@[i].item.path@) && s.right_notifs()[
                    entries@[i].item.path@] == entries@[i].right_notifications->Some_0.deep_view()
        },
{
    broadcast use vstd::seq_lib::group_filter_ensures;

    let mut structure = Structure::new();
    let ghost e_all = entries@;
    let n = entries.len();
    let mut idx: usize = 0;
    proof {
        assert(structure.item_map() =~= entries_item_map(e_all.take(0)));
        assert(e_all.take(0).map_values(|e: PageEntry| e.item) =~= Seq::<Item>::empty());
    }
    while idx < n
        invariant
            e_all == entries@,
            forall|i: int| 0 <= i < e_all.len() ==> wf_path((#[trigger] e_all[i].item.path@)),
            n == e_all.len(),
            idx <= n,
            structure.wf(),
            !structure.is_read_phase(),
            no_duplicate_paths(e_all.take(idx as int)),
            structure.item_map() == entries_item_map(e_all.take(idx as int)),
            forall|k: Seq<char>|
                #[trigger] structure.has_children(k) == entries_has_children(
                    e_all.take(idx as int),
                    k,
                ),
            forall|k: Seq<char>| #[trigger]
                structure.has_children(k) ==> structure.children_of(k) == entries_children(
                    e_all.take(idx as int),
                    k,
                ),
            forall|k: Seq<char>|
                !(#[trigger] structure.has_children(k)) ==> entries_children(
                    e_all.take(idx as int),
                    k,
                ) == Seq::<Item>::empty(),
            forall|i: int|
                0 <= i < idx && (#[trigger] e_all[i].left_notifications) is Some
                    ==> structure.left_notifs().contains_key(e_all[i].item.path@)
                    && structure.left_notifs()[e_all[i].item.path@]
                    == e_all[i].left_notifications->Some_0.deep_view(),
            forall|i: int|
                0 <= i < idx && (#[trigger] e_all[i].right_notifications) is Some
                    ==> structure.right_notifs().contains_key(e_all[i].item.path@)
                    && structure.right_notifs()[e_all[i].item.path@]
                    == e_all[i].right_notifications->Some_0.deep_view(),
        decreases n - idx,
    {
        broadcast use vstd::seq_lib::group_filter_ensures;

        let entry = &entries[idx];
        let ghost old_structure = structure;
        let ghost prefix = e_all.take(idx as int);
        let ghost prefix1 = e_all.take(idx as int + 1);
        proof {
            assert(prefix1.drop_last() =~= prefix);
            assert(prefix1.last() == e_all[idx as int]);
        }
        match &entry.left_notifications {
            Some(l) => {
                structure.add_left_sub_notifications(entry.item.path.as_str(), clone_string_vec(l));
            },
            None => {},
        }
        match &entry.right_notifications {
            Some(rn) => {
                structure.add_right_sub_notifications(
                    entry.item.path.as_str(),
                    clone_string_vec(rn),
                );
            },
            None => {},
        }
        let dup = structure.add_item(entry.item.duplicate());
        match dup {
            Err(e) => {
                proof {
                    assert(old_structure.item_map().contains_key(entry.item.path@));
                    assert(structure.item_map() == old_structure.item_map());
                    let w = choose|i: int|
                        0 <= i < prefix.len() && (#[trigger] prefix[i].item.path@)
                            == entry.item.path@;
                    assert(e_all[w].item.path@ == e_all[idx as int].item.path@);
                    assert(!no_duplicate_paths(e_all));
                }
                return Err(e);
            },
            Ok(()) => {},
        }
        proof {
            // the item map gains exactly this entry
            assert(structure.item_map() =~= entries_item_map(prefix1)) by {
                assert forall|k: Seq<char>|
                    #[trigger] entries_item_map(prefix1).contains_key(k)
                        == structure.item_map().contains_key(k) by {
                    if k == entry.item.path@ {
                        assert(prefix1[idx as int].item.path@ == k);
                    } else {
                        if entries_item_map(prefix1).contains_key(k) {
                            let i = choose|i: int|
                                0 <= i < prefix1.len() && (#[trigger] prefix1[i].item.path@) == k;
                            assert(prefix[i].item.path@ == k);
                        }
                        if structure.item_map().contains_key(k) {
                            assert(entries_item_map(prefix).contains_key(k));
                            let i = choose|i: int|
                                0 <= i < prefix.len() && (#[trigger] prefix[i].item.path@) == k;
                            assert(prefix1[i].item.path@ == k);
                        }
                    }
                }
                assert forall|k: Seq<char>| #[trigger]
                    entries_item_map(prefix1).contains_key(k) implies entries_item_map(prefix1)[k]
                    == structure.item_map()[k] by {
                    let i = choose|i: int|
                        0 <= i < prefix1.len() && (#[trigger] prefix1[i].item.path@) == k;
                    if k == entry.item.path@ {
                        assert(prefix1[i].item.path@ == prefix1[idx as int].item.path@);
                        assert(i == idx as int) by {
                            if i < idx as int {
                                assert(old_structure.item_map().contains_key(k));
                            }
                        }
                        assert(entries_item_map(prefix1)[k] == entry.item);
                    } else {
                        assert(i < idx as int);
                        assert(entries_item_map(prefix).contains_key(k));
                        let i0 = choose|i0: int|
                            0 <= i0 < prefix.len() && (#[trigger] prefix[i0].item.path@) == k;
                        assert(prefix1[i0].item.path@ == k);
                        assert(i0 == i || prefix1[i0].item.path@ == prefix1[i].item.path@);
                        assert(no_duplicate_paths(prefix1));
                        assert(i0 == i);
                        assert(entries_item_map(prefix)[k] == prefix[i0].item);
                    }
                }
            }
            // the children buckets gain exactly this entry under its parent
            let fitem = |e: PageEntry| e.item;
            assert(prefix1.map_values(fitem) =~= prefix.map_values(fitem).push(entry.item));
            match parent_path_spec(entry.item.path@) {
                None => {
                    assert forall|k: Seq<char>| true implies entries_children(prefix1, k)
                        == entries_children(prefix, k) by {
                        reveal(Seq::filter);
                        let fk = |it: Item| parent_path_spec(it.path@) == Some(k);
                        let mapped = prefix.map_values(fitem);
                        assert(mapped.push(entry.item).drop_last() =~= mapped);
                        assert(mapped.push(entry.item).filter(fk) == mapped.filter(fk));
                    }
                    assert forall|k: Seq<char>|
                        #[trigger] entries_has_children(prefix1, k) == entries_has_children(
                        prefix,
                        k,
                    ) by {
                        if entries_has_children(prefix1, k) {
                            let i = choose|i: int|
                                0 <= i < prefix1.len() && parent_path_spec(
                                    (#[trigger] prefix1[i].item.path@),
                                ) == Some(k);
                            assert(i < idx as int);
                            assert(parent_path_spec((prefix[i].item.path@)) == Some(k));
                        }
                        if entries_has_children(prefix, k) {
                            let i = choose|i: int|
                                0 <= i < prefix.len() && parent_path_spec(
                                    (#[trigger] prefix[i].item.path@),
                                ) == Some(k);
                            assert(parent_path_spec((prefix1[i].item.path@)) == Some(k));
                        }
                    }
                },
                Some(q) => {
                    assert forall|k: Seq<char>| k != q implies entries_children(prefix1, k)
                        == entries_children(prefix, k) by {
                        reveal(Seq::filter);
                        let fk = |it: Item| parent_path_spec(it.path@) == Some(k);
                        let mapped = prefix.map_values(fitem);
                        assert(mapped.push(entry.item).drop_last() =~= mapped);
                        assert(mapped.push(entry.item).filter(fk) == mapped.filter(fk));
                    }
                    assert(entries_children(prefix1, q) == entries_children(prefix, q).push(
                        entry.item,
                    )) by {
                        reveal(Seq::filter);
                        let fq = |it: Item| parent_path_spec(it.path@) == Some(q);
                        let mapped = prefix.map_values(fitem);
                        assert(mapped.push(entry.item).drop_last() =~= mapped);
                        assert(mapped.push(entry.item).filter(fq) == mapped.filter(fq).push(
                            entry.item,
                        ));
                    }
                    assert(entries_has_children(prefix1, q)) by {
                        assert(parent_path_spec((prefix1[idx as int].item.path@)) == Some(q));
                    }
                    assert forall|k: Seq<char>|
                        k != q implies #[trigger] entries_has_children(prefix1, k)
                        == entries_has_children(prefix, k) by {
                        if entries_has_children(prefix1, k) {
                            let i = choose|i: int|
                                0 <= i < prefix1.len() && parent_path_spec(
                                    (#[trigger] prefix1[i].item.path@),
                                ) == Some(k);
                            assert(i < idx as int);
                            assert(parent_path_spec((prefix[i].item.path@)) == Some(k));
                        }
                        if entries_has_children(prefix, k) {
                            let i = choose|i: int|
                                0 <= i < prefix.len() && parent_path_spec(
                                    (#[trigger] prefix[i].item.path@),
                                ) == Some(k);
                            assert(parent_path_spec((prefix1[i].item.path@)) == Some(k));
                        }
                    }
                },
            }
        }
        proof {
            // the inserted path is new, so earlier cached notifications stay
            assert(!entries_item_map(prefix).contains_key(entry.item.path@));
            assert forall|i: int| 0 <= i < idx ==> (#[trigger] e_all[i].item.path@)
                != entry.item.path@ by {
                assert forall|i: int| 0 <= i < idx implies (#[trigger] e_all[i].item.path@)
                    != entry.item.path@ by {
                    if e_all[i].item.path@ == entry.item.path@ {
                        assert(prefix[i].item.path@ == entry.item.path@);
                        assert(entries_item_map(prefix).contains_key(entry.item.path@));
                    }
                }
            }
            assert forall|k: Seq<char>| #[trigger]
                structure.has_children(k) implies structure.children_of(k) == entries_children(
                prefix1,
                k,
            ) by {
                match parent_path_spec(entry.item.path@) {
                    None => {
                        assert(structure.children_of(k) == old_structure.children_of(k));
                        if old_structure.has_children(k) {
                            assert(old_structure.children_of(k) == entries_children(prefix, k));
                        } else {
                            assert(entries_children(prefix, k) == Seq::<Item>::empty());
                            old_structure.lemma_children_empty(k);
                        }
                        assert(entries_children(prefix1, k) == entries_children(prefix, k));
                    },
                    Some(q) => {
                        if k == q {
                            assert(structure.children_of(q) == old_structure.children_of(q).push(
                                entry.item,
                            ));
                            if old_structure.has_children(q) {
                                assert(old_structure.children_of(q) == entries_children(
                                    prefix,
                                    q,
                                ));
                            } else {
                                assert(entries_children(prefix, q) == Seq::<Item>::empty());
                                old_structure.lemma_children_empty(q);
                            }
                            assert(entries_children(prefix1, q) == entries_children(
                                prefix,
                                q,
                            ).push(entry.item));
                        } else {
                            assert(structure.children_of(k) == old_structure.children_of(k));
                            if old_structure.has_children(k) {
                                assert(old_structure.children_of(k) == entries_children(
                                    prefix,
                                    k,
                                ));
                            } else {
                                assert(entries_children(prefix, k) == Seq::<Item>::empty());
                                assert(old_structure.children_of(k) =~= Seq::<Item>::empty());
                            }
                            assert(entries_children(prefix1, k) == entries_children(prefix, k));
                        }
                    },
                }
            }
            assert forall|k: Seq<char>|
                !(#[trigger] structure.has_children(k)) implies entries_children(prefix1, k)
                == Seq::<Item>::empty() by {
                assert(!old_structure.has_children(k));
                assert(entries_children(prefix, k) == Seq::<Item>::empty());
                match parent_path_spec(entry.item.path@) {
                    None => {
                        assert(entries_children(prefix1, k) == entries_children(prefix, k));
                    },
                    Some(q) => {
                        assert(k != q);
                        assert(entries_children(prefix1, k) == entries_children(prefix, k));
                    },
                }
            }
            assert forall|i: int|
                0 <= i < idx + 1 && (#[trigger] e_all[i].left_notifications) is Some implies
                structure.left_notifs().contains_key(e_all[i].item.path@)
                && structure.left_notifs()[e_all[i].item.path@]
                == e_all[i].left_notifications->Some_0.deep_view() by {
                if i < idx {
                    assert(e_all[i].item.path@ != entry.item.path@);
                }
            }
            assert forall|i: int|
                0 <= i < idx + 1 && (#[trigger] e_all[i].right_notifications) is Some implies
                structure.right_notifs().contains_key(e_all[i].item.path@)
                && structure.right_notifs()[e_all[i].item.path@]
                == e_all[i].right_notifications->Some_0.deep_view() by {
                if i < idx {
                    assert(e_all[i].item.path@ != entry.item.path@);
                }
            }
        }
        idx = idx + 1;
    }
    proof {
        assert(e_all.take(n as int) =~= e_all);
    }
    structure.sort();
    proof {
        broadcast use vstd::seq_lib::group_to_multiset_ensures;

    }
    Ok(structure)
}

} // verus!

verus! {

use crate::structure::{inherited_from, side_selection};

/// One page's derived views are the structure's answers for its path.
pub open spec fn page_model_ok(s: Structure, p: Seq<char>, pm: PageModel) -> bool {
    &&& pm.path@ == p
    &&& is_side_item_of(pm.menu_item, s.item_map()[p])
    &&& s.side_menu_expected(p, pm.side_menu)
    &&& s.breadcrumbs_expected(p, pm.breadcrumbs)
    &&& pm.left_notifications.deep_view() == inherited_from(s.left_notifs(), p)
    &&& pm.right_notifications.deep_view() == inherited_from(s.right_notifs(), p)
    &&& pm.side_notification_items@ == side_selection(
        if s.has_children(p) {
            s.children_of(p)
        } else {
            s.children_of(parent_path_spec(p)->Some_0)
        },
        p,
    )
}

/// Whether every view of every listed page resolves in the structure.
pub open spec fn assembly_resolvable(s: Structure, paths: Seq<String>, cfg: MenuConfig) -> bool {
    &&& (forall|i: int|
        0 <= i < cfg.socials@.len() ==> social_resolvable(#[trigger] cfg.socials@[i]))
    &&& (forall|i: int|
        0 <= i < cfg.main_menu@.len() ==> menu_entry_resolvable(
            s.item_map(),
            #[trigger] cfg.main_menu@[i],
        ))
    &&& (forall|i: int|
        0 <= i < paths.len() ==> page_resolvable(
            s.item_map(),
            |k: Seq<char>| s.has_children(k),
            (#[trigger] paths[i])@,
        ))
}

/// The shared navigation and the per-page views of a run.
pub struct SiteViews {
    pub main_menu: Vec<MenuItem>,
    pub socials: Vec<SocialItem>,
    pub pages: Vec<PageModel>,
}

/// Derive every view the pages need from a sorted structure: the main menu
/// and classified social links once, and per page its own node, side menu,
/// breadcrumbs, inherited notifications and sibling selection.
pub fn assemble_pages(structure: &Structure, paths: &Vec<String>, menu_config: &MenuConfig) -> (r:
    Result<SiteViews, SiteError>)
    requires
        structure.wf(),
        structure.is_read_phase(),
        forall|i: int| 0 <= i < paths@.len() ==> wf_path((#[trigger] paths@[i])@),
    ensures
        r is Ok <==> assembly_resolvable(*structure, paths@, *menu_config),
        r matches Ok(v) ==> {
            &&& v.main_menu@.len() == menu_config.main_menu@.len()
            &&& forall|i: int|
                0 <= i < v.main_menu@.len() ==> structure.main_menu_entry_ok(
                    menu_config.main_menu@[i],
                    #[trigger] v.main_menu@[i],
                )
            &&& v.socials@.len() == menu_config.socials@.len()
            &&& forall|i: int|
                0 <= i < v.socials@.len() ==> social_expected(
                    menu_config.socials@[i],
                    Ok(#[trigger] v.socials@[i]),
                )
            &&& v.pages@.len() == paths@.len()
            &&& forall|i: int|
                0 <= i < v.pages@.len() ==> page_model_ok(
                    *structure,
                    paths@[i]@,
                    #[trigger] v.pages@[i],
                )
        },
{
    let mut socials: Vec<SocialItem> = Vec::new();
    let ns = menu_config.socials.len();
    let mut i: usize = 0;
    while i < ns
        invariant
            ns == menu_config.socials@.len(),
            i <= ns,
            socials@.len() == i,
            forall|j: int|
                0 <= j < i ==> social_expected(
                    menu_config.socials@[j],
                    Ok(#[trigger] socials@[j]),
                ),
            forall|j: int| 0 <= j < i ==> social_resolvable(#[trigger] menu_config.socials@[j]),
        decreases ns - i,
    {
        match SocialItem::new(&menu_config.socials[i]) {
            Ok(s) => {
                socials.push(s);
            },
            Err(e) => {
                proof {
                    assert(!social_resolvable(menu_config.socials@[i as int]));
                }
                return Err(e);
            },
        }
        i = i + 1;
    }
    let main_menu = match structure.get_main_menu_items(menu_config) {
        Ok(v) => v,
        Err(e) => {
            return Err(e);
        },
    };
    let mut pages: Vec<PageModel> = Vec::new();
    let np = paths.len();
    let mut p_i: usize = 0;
    while p_i < np
        invariant
            structure.wf(),
            structure.is_read_phase(),
            forall|i2: int| 0 <= i2 < paths@.len() ==> wf_path((#[trigger] paths@[i2])@),
            np == paths@.len(),
            p_i <= np,
            pages@.len() == p_i,
            forall|j: int|
                0 <= j < p_i ==> page_model_ok(*structure, paths@[j]@, #[trigger] pages@[j]),
            forall|j: int|
                0 <= j < p_i ==> page_resolvable(
                    structure.item_map(),
                    |k: Seq<char>| structure.has_children(k),
                    (#[trigger] paths@[j])@,
                ),
        decreases np - p_i,
    {
        let p = &paths[p_i];
        let menu_item = match structure.get_menu_item(p.as_str()) {
            Ok(m) => m,
            Err(e) => {
                return Err(e);
            },
        };
        let side_menu = match structure.get_side_menu_items(p.as_str()) {
            Ok(o) => o,
            Err(e) => {
                return Err(e);
            },
        };
        let breadcrumbs = match structure.get_breadcrumbs(p.as_str()) {
            Ok(o) => o,
            Err(e) => {
                return Err(e);
            },
        };
        let left_notifications = structure.get_left_sub_notifications(p.as_str());
        let right_notifications = structure.get_right_sub_notifications(p.as_str());
        let side_notification_items = match structure.get_side_notifications(p.as_str()) {
            Ok(v) => v,
            Err(e) => {
                return Err(e);
            },
        };
        pages.push(
            PageModel {
                path: p.clone(),
                menu_item,
                side_menu,
                breadcrumbs,
                left_notifications,
                right_notifications,
                side_notification_items,
            },
        );
        p_i = p_i + 1;
    }
    Ok(SiteViews { main_menu, socials, pages })
}

} // verus!

verus! {

/// The core of a run: build and sort the structure from the entries, then
/// derive the shared navigation and every page's views, in entry order.
/// Distinct paths, classifiable social links, resolvable menu entries and
/// resolvable page lookups are exactly what success takes.
pub fn generate(entries: Vec<PageEntry>, menu_config: &MenuConfig) -> (r: Result<
    SiteOutput,
    SiteError,
>)
    requires
        forall|i: int| 0 <= i < entries@.len() ==> wf_path((#[trigger] entries@[i].item.path@)),
    ensures
        r is Ok <==> generation_resolvable(entries@, *menu_config),
        r matches Ok(out) ==> {
            &&& out.structure.wf()
            &&& out.structure.is_read_phase()
            &&& out.structure.item_map() == entries_item_map(entries@)
            &&& forall|k: Seq<char>|
                #[trigger] out.structure.has_children(k) == entries_has_children(entries@, k)
            &&& forall|k: Seq<char>| #[trigger]
                out.structure.has_children(k) ==> sorted_items(out.structure.children_of(k))
                    && out.structure.children_of(k).to_multiset() == entries_children(
                    entries@,
                    k,
                ).to_multiset()
            &&& out.main_menu@.len() == menu_config.main_menu@.len()
            &&& forall|i: int|
                0 <= i < out.main_menu@.len() ==> out.structure.main_menu_entry_ok(
                    menu_config.main_menu@[i],
                    #[trigger] out.main_menu@[i],
                )
            &&& out.socials@.len() == menu_config.socials@.len()
            &&& forall|i: int|
                0 <= i < out.socials@.len() ==> social_expected(
                    menu_config.socials@[i],
                    Ok(#[trigger] out.socials@[i]),
                )
            &&& out.pages@.len() == entries@.len()
            &&& forall|i: int|
                0 <= i < out.pages@.len() ==> page_model_ok(
                    out.structure,
                    entries@[i].item.path@,
                    #[trigger] out.pages@[i],
                )
        },
{
    let structure = match build_structure(&entries) {
        Ok(s) => s,
        Err(e) => {
            return Err(e);
        },
    };
    let mut paths: Vec<String> = Vec::new();
    let n = entries.len();
    let mut i: usize = 0;
    while i < n
        invariant
            n == entries@.len(),
            i <= n,
            paths@.len() == i,
            forall|j: int| 0 <= j < i ==> (#[trigger] paths@[j])@ == entries@[j].item.path@,
            forall|j: int| 0 <= j < entries@.len() ==> wf_path((#[trigger] entries@[j].item.path@)),
        decreases n - i,
    {
        paths.push(entries[i].item.path.clone());
        i = i + 1;
    }
    proof {
        assert forall|j: int| 0 <= j < paths@.len() implies wf_path((#[trigger] paths@[j])@) by {
            assert(paths@[j]@ == entries@[j].item.path@);
        }
    }
    match assemble_pages(&structure, &paths, menu_config) {
        Err(e) => {
            proof {
                assert(!assembly_resolvable(structure, paths@, *menu_config));
                assert(!generation_resolvable(entries@, *menu_config)) by {
                    if generation_resolvable(entries@, *menu_config) {
                        let m = entries_item_map(entries@);
                        let hc = |k: Seq<char>| entries_has_children(entries@, k);
                        let hc_s = |k: Seq<char>| structure.has_children(k);
                        assert forall|i2: int| 0 <= i2 < paths@.len() implies page_resolvable(
                            structure.item_map(),
                            hc_s,
                            (#[trigger] paths@[i2])@,
                        ) by {
                            assert(page_resolvable(m, hc, entries@[i2].item.path@));
                            let p = paths@[i2]@;
                            assert(hc(p) == hc_s(p));
                            match parent_path_spec(p) {
                                Some(q) => {
                                    assert(hc(q) == hc_s(q));
                                },
                                None => {},
                            }
                        }
                        assert(assembly_resolvable(structure, paths@, *menu_config));
                    }
                }
            }
            Err(e)
        },
        Ok(views) => {
            proof {
                assert(generation_resolvable(entries@, *menu_config)) by {
                    let m = entries_item_map(entries@);
                    let hc = |k: Seq<char>| entries_has_children(entries@, k);
                    let hc_s = |k: Seq<char>| structure.has_children(k);
                    assert forall|i2: int| 0 <= i2 < entries@.len() implies page_resolvable(
                        m,
                        hc,
                        (#[trigger] entries@[i2].item.path@),
                    ) by {
                        assert(page_resolvable(
                            structure.item_map(),
                            hc_s,
                            paths@[i2]@,
                        ));
                        let p = entries@[i2].item.path@;
                        assert(hc(p) == hc_s(p));
                        match parent_path_spec(p) {
                            Some(q) => {
                                assert(hc(q) == hc_s(q));
                            },
                            None => {},
                        }
                    }
                }
                assert forall|i2: int| 0 <= i2 < views.pages@.len() implies page_model_ok(
                    structure,
                    entries@[i2].item.path@,
                    #[trigger] views.pages@[i2],
                ) by {
                    assert(page_model_ok(structure, paths@[i2]@, views.pages@[i2]));
                }
            }
            Ok(
                SiteOutput {
                    structure,
                    main_menu: views.main_menu,
                    socials: views.socials,
                    pages: views.pages,
                },
            )
        },
    }
}

} // verus!
