//! The content-tree index: items addressed by site path, their parent/child
//! buckets, cached notifications, and the derived navigation queries.
use vstd::prelude::*;

use vstd::multiset::Multiset;
use crate::config_files::{PageConfig, RawMenuItem, RawSocialItem, MenuConfig};
use crate::dashes::{PathIndexMap, index_map_contents, index_map_new, index_map_insert,
    index_map_get};
use crate::errors::SiteError;
use crate::paths::{parent_path, parent_path_spec, wf_path, count_slashes, depth,
    lemma_last_slash_bounds};
use crate::strutil::{opt_view, clone_opt_string, clone_string_vec, seq_char_le,
    lemma_seq_char_le_total, lemma_seq_char_le_trans, str_starts_with};

verus! {

/// One content page, keyed by its site path.
pub struct Item {
    pub path: String,
    pub title: String,
    pub sub_title: Option<String>,
    pub icon: Option<String>,
    pub summary: Option<String>,
    pub content: String,
    pub order: u32,
}

/// The `order` value of items with no explicit order: they sort last.
pub open spec fn unordered() -> int {
    u32::MAX as int
}

impl Item {
    /// An item from its path and page configuration; a missing `order` means
    /// unordered, which sorts after every explicit order.
    pub fn new(path: String, page_config: PageConfig) -> (r: Item)
        ensures
            r.path == path,
            r.title == page_config.title,
            r.sub_title == page_config.sub_title,
            r.icon == page_config.icon,
            r.summary == page_config.summary,
            r.content == page_config.content,
            r.order as int == match page_config.order {
                Some(o) => o as int,
                None => unordered(),
            },
    {
        Item {
            path,
            title: page_config.title,
            sub_title: page_config.sub_title,
            icon: page_config.icon,
            summary: page_config.summary,
            content: page_config.content,
            order: match page_config.order {
                Some(o) => o,
                None => u32::MAX,
            },
        }
    }

    /// A field-for-field copy.
    pub fn duplicate(&self) -> (r: Item)
        ensures
            r == *self,
    {
        Item {
            path: self.path.clone(),
            title: self.title.clone(),
            sub_title: clone_opt_string(&self.sub_title),
            icon: clone_opt_string(&self.icon),
            summary: clone_opt_string(&self.summary),
            content: self.content.clone(),
            order: self.order,
        }
    }
}

/// Items order by explicit `order` ascending; ties break by title, lexical
/// and case-sensitive. Unordered items sort after every ordered one.
pub open spec fn item_le(a: Item, b: Item) -> bool {
    a.order < b.order || (a.order == b.order && seq_char_le(a.title@, b.title@))
}

/// The item order is total.
pub proof fn lemma_item_le_total(a: Item, b: Item)
    ensures
        item_le(a, b) || item_le(b, a),
{
    lemma_seq_char_le_total(a.title@, b.title@);
}

/// The item order is transitive.
pub proof fn lemma_item_le_trans(a: Item, b: Item, c: Item)
    requires
        item_le(a, b),
        item_le(b, c),
    ensures
        item_le(a, c),
{
    if a.order == b.order && b.order == c.order {
        lemma_seq_char_le_trans(a.title@, b.title@, c.title@);
    }
}

/// A sequence of items in sorted order.
pub open spec fn sorted_items(s: Seq<Item>) -> bool {
    forall|i: int, j: int| 0 <= i < j < s.len() ==> item_le(#[trigger] s[i], #[trigger] s[j])
}

/// In a sorted bucket: explicitly ordered items come in ascending `order`,
/// strictly where their orders differ; every unordered item comes after all
/// ordered ones; and unordered items stand alphabetically by title.
pub proof fn lemma_sorted_bucket_shape(s: Seq<Item>)
    requires
        sorted_items(s),
    ensures
        forall|i: int, j: int|
            0 <= i < j < s.len() ==> (#[trigger] s[i]).order <= (#[trigger] s[j]).order,
        forall|i: int, j: int|
            0 <= i < j < s.len() && (#[trigger] s[i]).order != (#[trigger] s[j]).order ==> s[i].order
                < s[j].order,
        forall|i: int, j: int|
            0 <= i < j < s.len() && (#[trigger] s[i]).order as int == unordered() ==> (
            #[trigger] s[j]).order as int == unordered(),
        forall|i: int, j: int|
            0 <= i < j < s.len() && (#[trigger] s[i]).order as int == unordered() && (
            #[trigger] s[j]).order as int == unordered() ==> seq_char_le(s[i].title@, s[j].title@),
{
}

/// Whether a navigation node points into the tree or at an external link.
#[derive(Debug, PartialEq, Eq, Structural, Clone, Copy)]
pub enum MenuType {
    Internal,
    External,
}

/// A resolved navigation node.
pub struct MenuItem {
    pub menu_type: MenuType,
    pub url: String,
    pub title: String,
    pub icon: Option<String>,
    pub children: Option<Vec<MenuItem>>,
}

/// `m` is the childless navigation node of item `it`.
pub open spec fn is_side_item_of(m: MenuItem, it: Item) -> bool {
    &&& m.menu_type is Internal
    &&& m.url@ == it.path@
    &&& m.title@ == it.title@
    &&& opt_view(m.icon) == opt_view(it.icon)
    &&& m.children is None
}

/// `m` is the navigation node of item `it` with exactly the childless nodes
/// of `kids` attached.
pub open spec fn is_side_item_with_children(m: MenuItem, it: Item, kids: Seq<Item>) -> bool {
    &&& m.menu_type is Internal
    &&& m.url@ == it.path@
    &&& m.title@ == it.title@
    &&& opt_view(m.icon) == opt_view(it.icon)
    &&& m.children matches Some(c) && c@.len() == kids.len() && (forall|j: int|
        0 <= j < kids.len() ==> is_side_item_of(#[trigger] c@[j], kids[j]))
}

impl Item {
    /// The main-menu node of this item: configured title and icon win over
    /// the item's own, and the given children are attached.
    pub fn to_main_menu_item(
        &self,
        title: Option<String>,
        icon: Option<String>,
        children: Option<Vec<MenuItem>>,
    ) -> (r: MenuItem)
        ensures
            r.menu_type is Internal,
            r.url@ == self.path@,
            r.title@ == match title {
                Some(ref t) => t@,
                None => self.title@,
            },
            opt_view(r.icon) == match icon {
                Some(ref i) => Some(i@),
                None => opt_view(self.icon),
            },
            r.children == children,
    {
        let icon = match icon {
            None => clone_opt_string(&self.icon),
            Some(i) => Some(i),
        };
        MenuItem {
            menu_type: MenuType::Internal,
            url: self.path.clone(),
            title: match title {
                Some(t) => t,
                None => self.title.clone(),
            },
            icon,
            children,
        }
    }

    /// The side-menu node of this item, with the given children attached.
    pub fn to_side_menu_item(&self, children: Option<Vec<MenuItem>>) -> (r: MenuItem)
        ensures
            r.menu_type is Internal,
            r.url@ == self.path@,
            r.title@ == self.title@,
            opt_view(r.icon) == opt_view(self.icon),
            r.children == children,
            children is None ==> is_side_item_of(r, *self),
    {
        MenuItem {
            menu_type: MenuType::Internal,
            url: self.path.clone(),
            title: self.title.clone(),
            icon: clone_opt_string(&self.icon),
            children,
        }
    }
}

impl RawMenuItem {
    /// The external navigation node of a configured entry; an external entry
    /// without a title is a configuration error.
    pub fn to_external_item(&self) -> (r: Result<MenuItem, SiteError>)
        ensures
            self.title is None <==> r is Err,
            r matches Err(e) ==> e == SiteError::MissingExternalTitle(self.url),
            r matches Ok(m) ==> {
                &&& m.menu_type is External
                &&& m.url@ == self.url@
                &&& Some(m.title@) == opt_view(self.title)
                &&& opt_view(m.icon) == opt_view(self.icon)
                &&& m.children is None
            },
    {
        match self.title.as_ref() {
            None => Err(SiteError::MissingExternalTitle(self.url.clone())),
            Some(t) => Ok(
                MenuItem {
                    menu_type: MenuType::External,
                    url: self.url.clone(),
                    title: t.clone(),
                    icon: clone_opt_string(&self.icon),
                    children: None,
                },
            ),
        }
    }
}

} // verus!

verus! {


/// Every path entry points into the arena, at the item with that path.
pub open spec fn paths_wf(items: Seq<Item>, pc: Map<Seq<char>, usize>) -> bool {
    forall|k: Seq<char>| #[trigger]
        pc.contains_key(k) ==> (pc[k] as int) < items.len() && items[pc[k] as int].path@ == k
            && wf_path(k)
}

/// Every entry of a bucket is an arena index of an item parented at the
/// bucket's key.
pub open spec fn bucket_entries_wf(items: Seq<Item>, b: Seq<usize>, k: Seq<char>) -> bool {
    forall|j: int|
        0 <= j < b.len() ==> (#[trigger] b[j] as int) < items.len() && parent_path_spec(
            items[b[j] as int].path@,
        ) == Some(k)
}

/// Every parent entry points at a bucket of its own children.
pub open spec fn buckets_wf(
    items: Seq<Item>,
    bc: Map<Seq<char>, usize>,
    buckets: Seq<Vec<usize>>,
) -> bool {
    forall|k: Seq<char>| #[trigger]
        bc.contains_key(k) ==> (bc[k] as int) < buckets.len() && bucket_entries_wf(
            items,
            buckets[bc[k] as int]@,
            k,
        )
}

/// Every bucket in the arena holds valid arena indices.
pub open spec fn bucket_indices_valid(items: Seq<Item>, b: Seq<usize>) -> bool {
    forall|j: int| 0 <= j < b.len() ==> (#[trigger] b[j] as int) < items.len()
}

/// Every bucket of the bucket arena points into the item arena.
pub open spec fn buckets_arena_valid(items: Seq<Item>, buckets: Seq<Vec<usize>>) -> bool {
    forall|i: int| 0 <= i < buckets.len() ==> bucket_indices_valid(items, #[trigger] buckets[i]@)
}

/// Distinct parents use distinct buckets.
pub open spec fn buckets_injective(bc: Map<Seq<char>, usize>) -> bool {
    forall|k1: Seq<char>, k2: Seq<char>|
        #![trigger bc[k1], bc[k2]]
        bc.contains_key(k1) && bc.contains_key(k2) && k1 != k2 ==> bc[k1] != bc[k2]
}

/// Every cache entry points into the notification arena.
pub open spec fn cache_wf(cc: Map<Seq<char>, usize>, n: int) -> bool {
    forall|k: Seq<char>| #[trigger] cc.contains_key(k) ==> (cc[k] as int) < n
}

/// The content-tree index: the full set of items plus the derived
/// parent-to-children buckets and the per-path notification caches.
///
/// Items live in an arena; the concurrent maps associate a path with an
/// arena index only, so everything except that association is verified.
/// Inserts populate it during the build phase; `sort` is the barrier into
/// the read phase; the query methods derive navigation views.
pub struct Structure {
    items: Vec<Item>,
    by_path: PathIndexMap,
    by_parent: PathIndexMap,
    buckets: Vec<Vec<usize>>,
    left_cache: PathIndexMap,
    right_cache: PathIndexMap,
    notif_lists: Vec<Vec<String>>,
    read_phase: bool,
}

impl Structure {
    /// The path-to-arena-index association.
    pub closed spec fn path_contents(&self) -> Map<Seq<char>, usize> {
        index_map_contents(self.by_path)
    }

    /// The parent-path-to-bucket-index association.
    pub closed spec fn parent_contents(&self) -> Map<Seq<char>, usize> {
        index_map_contents(self.by_parent)
    }

    spec fn left_contents(&self) -> Map<Seq<char>, usize> {
        index_map_contents(self.left_cache)
    }

    spec fn right_contents(&self) -> Map<Seq<char>, usize> {
        index_map_contents(self.right_cache)
    }

    /// The items by path.
    pub closed spec fn item_map(&self) -> Map<Seq<char>, Item> {
        Map::new(
            |k: Seq<char>| self.path_contents().contains_key(k),
            |k: Seq<char>| self.items@[self.path_contents()[k] as int],
        )
    }

    /// Whether any inserted item names `k` as its parent.
    pub closed spec fn has_children(&self, k: Seq<char>) -> bool {
        self.parent_contents().contains_key(k)
    }

    /// The bucket of `k`: the items whose parent is `k`, in bucket order.
    pub closed spec fn children_of(&self, k: Seq<char>) -> Seq<Item> {
        if self.has_children(k) {
            self.buckets@[self.parent_contents()[k] as int]@.map_values(
                |j: usize| self.items@[j as int],
            )
        } else {
            Seq::empty()
        }
    }

    /// The cached left notification lists by path.
    pub closed spec fn left_notifs(&self) -> Map<Seq<char>, Seq<Seq<char>>> {
        Map::new(
            |k: Seq<char>| self.left_contents().contains_key(k),
            |k: Seq<char>| self.notif_lists@[self.left_contents()[k] as int].deep_view(),
        )
    }

    /// The cached right notification lists by path.
    pub closed spec fn right_notifs(&self) -> Map<Seq<char>, Seq<Seq<char>>> {
        Map::new(
            |k: Seq<char>| self.right_contents().contains_key(k),
            |k: Seq<char>| self.notif_lists@[self.right_contents()[k] as int].deep_view(),
        )
    }

    /// Whether `sort` has run: inserts come before, queries after.
    pub closed spec fn is_read_phase(&self) -> bool {
        self.read_phase
    }

    /// A key without children has the empty bucket.
    pub proof fn lemma_children_empty(&self, k: Seq<char>)
        requires
            !self.has_children(k),
        ensures
            self.children_of(k) == Seq::<Item>::empty(),
    {
    }

    /// Internal consistency: every index stored in a map or bucket points
    /// into its arena, at an entry keyed or parented as the map says.
    pub closed spec fn wf(&self) -> bool {
        &&& paths_wf(self.items@, self.path_contents())
        &&& buckets_wf(self.items@, self.parent_contents(), self.buckets@)
        &&& buckets_arena_valid(self.items@, self.buckets@)
        &&& buckets_injective(self.parent_contents())
        &&& cache_wf(self.left_contents(), self.notif_lists@.len() as int)
        &&& cache_wf(self.right_contents(), self.notif_lists@.len() as int)
    }

    /// An empty structure, in the build phase.
    pub fn new() -> (r: Structure)
        ensures
            r.wf(),
            !r.is_read_phase(),
            r.item_map() == Map::<Seq<char>, Item>::empty(),
            forall|k: Seq<char>| !r.has_children(k),
            r.left_notifs() == Map::<Seq<char>, Seq<Seq<char>>>::empty(),
            r.right_notifs() == Map::<Seq<char>, Seq<Seq<char>>>::empty(),
    {
        let r = Structure {
            items: Vec::new(),
            by_path: index_map_new(),
            by_parent: index_map_new(),
            buckets: Vec::new(),
            left_cache: index_map_new(),
            right_cache: index_map_new(),
            notif_lists: Vec::new(),
            read_phase: false,
        };
        proof {
            assert(r.item_map() =~= Map::<Seq<char>, Item>::empty());
            assert(r.left_notifs() =~= Map::<Seq<char>, Seq<Seq<char>>>::empty());
            assert(r.right_notifs() =~= Map::<Seq<char>, Seq<Seq<char>>>::empty());
        }
        r
    }

    /// Insert one item: it becomes reachable by its path, and joins its
    /// parent's bucket. An already-present path is a configuration error
    /// (each path identifies one item) and leaves the structure unchanged.
    pub fn add_item(&mut self, item: Item) -> (r: Result<(), SiteError>)
        requires
            old(self).wf(),
            !old(self).is_read_phase(),
            wf_path(item.path@),
        ensures
            final(self).wf(),
            !final(self).is_read_phase(),
            r is Err <==> old(self).item_map().contains_key(item.path@),
            r matches Err(e) ==> e == SiteError::DuplicateItem(item.path) && *final(self) == *old(self),
            r is Ok ==> {
                &&& final(self).item_map() == old(self).item_map().insert(item.path@, item)
                &&& final(self).left_notifs() == old(self).left_notifs()
                &&& final(self).right_notifs() == old(self).right_notifs()
                &&& match parent_path_spec(item.path@) {
                    None => (forall|k: Seq<char>| #[trigger]
                        final(self).has_children(k) == old(self).has_children(k)) && (forall|
                        k: Seq<char>,
                    | #[trigger] final(self).children_of(k) == old(self).children_of(k)),
                    Some(q) => {
                        &&& final(self).has_children(q)
                        &&& final(self).children_of(q) == old(self).children_of(q).push(item)
                        &&& forall|k: Seq<char>|
                            k != q ==> #[trigger] final(self).has_children(k) == old(
                                self,
                            ).has_children(k)
                        &&& forall|k: Seq<char>|
                            k != q ==> #[trigger] final(self).children_of(k) == old(
                                self,
                            ).children_of(k)
                    },
                }
            },
    {
        if let Some(_) = index_map_get(&self.by_path, item.path.as_str()) {
            return Err(SiteError::DuplicateItem(item.path.clone()));
        }
        let ghost old_self = *self;
        let idx = self.items.len();
        let path_clone = item.path.clone();
        let parent = parent_path(item.path.as_str());
        let ghost the_item = item;
        self.items.push(item);
        index_map_insert(&mut self.by_path, path_clone, idx);
        proof {
            assert(self.item_map() =~= old_self.item_map().insert(the_item.path@, the_item));
            assert(self.left_notifs() =~= old_self.left_notifs());
            assert(self.right_notifs() =~= old_self.right_notifs());
        }
        match parent {
            None => {
                proof {
                    assert(forall|k: Seq<char>| #[trigger]
                        self.has_children(k) == old_self.has_children(k));
                    assert(forall|k: Seq<char>| #[trigger]
                        self.children_of(k) =~= old_self.children_of(k));
                }
                Ok(())
            },
            Some(q) => {
                let ghost mid_self = *self;
                match index_map_get(&self.by_parent, q.as_str()) {
                    Some(b) => {
                        proof {
                            assert(old_self.parent_contents().contains_key(q@));
                            assert(b < self.buckets.len());
                        }
                        self.buckets[b].push(idx);
                        proof {
                            assert(self.children_of(q@) =~= old_self.children_of(q@).push(
                                the_item,
                            ));
                            assert(forall|k: Seq<char>|
                                k != q@ ==> #[trigger] self.has_children(k)
                                    == old_self.has_children(k));
                            assert(forall|k: Seq<char>|
                                k != q@ ==> #[trigger] self.children_of(k)
                                    =~= old_self.children_of(k));
                        }
                    },
                    None => {
                        let b = self.buckets.len();
                        let mut bucket: Vec<usize> = Vec::new();
                        bucket.push(idx);
                        self.buckets.push(bucket);
                        index_map_insert(&mut self.by_parent, q, b);
                        proof {
                            assert(self.children_of(q@) =~= old_self.children_of(q@).push(
                                the_item,
                            ));
                            assert(forall|k: Seq<char>|
                                k != q@ ==> #[trigger] self.has_children(k)
                                    == old_self.has_children(k));
                            assert(forall|k: Seq<char>|
                                k != q@ ==> #[trigger] self.children_of(k)
                                    =~= old_self.children_of(k));
                        }
                    },
                }
                Ok(())
            },
        }
    }

    /// Cache the rendered left notifications of a path. A later insert for
    /// the same path replaces the earlier list.
    pub fn add_left_sub_notifications(&mut self, path: &str, notifications: Vec<String>)
        requires
            old(self).wf(),
            !old(self).is_read_phase(),
        ensures
            final(self).wf(),
            !final(self).is_read_phase(),
            final(self).left_notifs() == old(self).left_notifs().insert(
                path@,
                notifications.deep_view(),
            ),
            final(self).right_notifs() == old(self).right_notifs(),
            final(self).item_map() == old(self).item_map(),
            forall|k: Seq<char>| #[trigger]
                final(self).has_children(k) == old(self).has_children(k),
            forall|k: Seq<char>| #[trigger]
                final(self).children_of(k) == old(self).children_of(k),
    {
        let ghost old_self = *self;
        let ghost nview = notifications.deep_view();
        let idx = self.notif_lists.len();
        self.notif_lists.push(notifications);
        index_map_insert(&mut self.left_cache, String::from_str(path), idx);
        proof {
            assert forall|k: Seq<char>| #[trigger]
                self.left_contents().contains_key(k) implies (self.left_contents()[k] as int)
                < self.notif_lists@.len() by {
                if k != path@ {
                    assert(old_self.left_contents().contains_key(k));
                }
            }
            assert forall|k: Seq<char>| #[trigger]
                self.right_contents().contains_key(k) implies (self.right_contents()[k] as int)
                < self.notif_lists@.len() by {
                assert(old_self.right_contents().contains_key(k));
            }
            assert(self.left_notifs() =~= old_self.left_notifs().insert(path@, nview));
            assert(self.right_notifs() =~= old_self.right_notifs());
            assert(self.item_map() =~= old_self.item_map());
            assert(forall|k: Seq<char>| #[trigger]
                self.has_children(k) == old_self.has_children(k));
            assert(forall|k: Seq<char>| #[trigger]
                self.children_of(k) =~= old_self.children_of(k));
        }
    }

    /// Cache the rendered right notifications of a path. A later insert for
    /// the same path replaces the earlier list.
    pub fn add_right_sub_notifications(&mut self, path: &str, notifications: Vec<String>)
        requires
            old(self).wf(),
            !old(self).is_read_phase(),
        ensures
            final(self).wf(),
            !final(self).is_read_phase(),
            final(self).right_notifs() == old(self).right_notifs().insert(
                path@,
                notifications.deep_view(),
            ),
            final(self).left_notifs() == old(self).left_notifs(),
            final(self).item_map() == old(self).item_map(),
            forall|k: Seq<char>| #[trigger]
                final(self).has_children(k) == old(self).has_children(k),
            forall|k: Seq<char>| #[trigger]
                final(self).children_of(k) == old(self).children_of(k),
    {
        let ghost old_self = *self;
        let ghost nview = notifications.deep_view();
        let idx = self.notif_lists.len();
        self.notif_lists.push(notifications);
        index_map_insert(&mut self.right_cache, String::from_str(path), idx);
        proof {
            assert forall|k: Seq<char>| #[trigger]
                self.right_contents().contains_key(k) implies (self.right_contents()[k] as int)
                < self.notif_lists@.len() by {
                if k != path@ {
                    assert(old_self.right_contents().contains_key(k));
                }
            }
            assert forall|k: Seq<char>| #[trigger]
                self.left_contents().contains_key(k) implies (self.left_contents()[k] as int)
                < self.notif_lists@.len() by {
                assert(old_self.left_contents().contains_key(k));
            }
            assert(self.right_notifs() =~= old_self.right_notifs().insert(path@, nview));
            assert(self.left_notifs() =~= old_self.left_notifs());
            assert(self.item_map() =~= old_self.item_map());
            assert(forall|k: Seq<char>| #[trigger]
                self.has_children(k) == old_self.has_children(k));
            assert(forall|k: Seq<char>| #[trigger]
                self.children_of(k) =~= old_self.children_of(k));
        }
    }
}

} // verus!

verus! {

/// Bucket entries in sorted order, compared through the item arena.
pub open spec fn sorted_indices(items: Seq<Item>, b: Seq<usize>) -> bool {
    forall|x: int, y: int|
        #![trigger b[x], b[y]]
        0 <= x < y < b.len() ==> item_le(items[b[x] as int], items[b[y] as int])
}

/// Mapping two sequences with equal multisets gives equal multisets.
proof fn lemma_map_values_multiset(s1: Seq<usize>, s2: Seq<usize>, f: spec_fn(usize) -> Item)
    requires
        s1.to_multiset() == s2.to_multiset(),
    ensures
        s1.map_values(f).to_multiset() == s2.map_values(f).to_multiset(),
    decreases s1.len(),
{
    broadcast use vstd::seq_lib::group_to_multiset_ensures;

    if s1.len() == 0 {
        assert(s2.to_multiset().len() == 0);
        assert(s1.map_values(f) =~= Seq::<Item>::empty());
        assert(s2.map_values(f) =~= Seq::<Item>::empty());
        assert(s1.map_values(f).to_multiset() =~= s2.map_values(f).to_multiset());
    } else {
        let a = s1[0];
        assert(s1.contains(a));
        assert(s1.to_multiset().count(a) > 0);
        assert(s2.to_multiset().count(a) > 0);
        assert(s2.contains(a));
        let l = choose|l: int| 0 <= l < s2.len() && s2[l] == a;
        assert(s1.remove(0).to_multiset() == s1.to_multiset().remove(a));
        assert(s2.remove(l).to_multiset() == s2.to_multiset().remove(a));
        lemma_map_values_multiset(s1.remove(0), s2.remove(l), f);
        assert(s1.remove(0).map_values(f) =~= s1.map_values(f).remove(0));
        assert(s2.remove(l).map_values(f) =~= s2.map_values(f).remove(l));
        assert(s1.map_values(f).remove(0).to_multiset() == s1.map_values(f).to_multiset().remove(
            f(a),
        ));
        assert(s2.map_values(f).remove(l).to_multiset() == s2.map_values(f).to_multiset().remove(
            f(s2[l]),
        ));
        assert(s1.map_values(f).contains(f(a)));
        assert(s2.map_values(f)[l] == f(a));
        assert(s2.map_values(f).contains(f(a)));
        assert(s1.map_values(f).to_multiset().count(f(a)) > 0);
        assert(s2.map_values(f).to_multiset().count(f(a)) > 0);
        assert(s1.map_values(f).to_multiset() =~= s2.map_values(f).to_multiset()) by {
            let m1 = s1.map_values(f).to_multiset();
            let m2 = s2.map_values(f).to_multiset();
            assert(m1.remove(f(a)) == m2.remove(f(a)));
            assert forall|x: Item| m1.count(x) == m2.count(x) by {
                if x == f(a) {
                    assert(m1.remove(f(a)).count(x) == m1.count(x) - 1);
                    assert(m2.remove(f(a)).count(x) == m2.count(x) - 1);
                } else {
                    assert(m1.remove(f(a)).count(x) == m1.count(x));
                    assert(m2.remove(f(a)).count(x) == m2.count(x));
                }
            }
        }
    }
}

/// Whether `a` orders at or before `b`.
pub fn item_le_exec(a: &Item, b: &Item) -> (r: bool)
    ensures
        r == item_le(*a, *b),
{
    if a.order < b.order {
        true
    } else if a.order == b.order {
        crate::strutil::str_le(a.title.as_str(), b.title.as_str())
    } else {
        false
    }
}

/// Selection sort of one bucket of arena indices, by item order.
fn sort_bucket(items: &Vec<Item>, bucket: &Vec<usize>) -> (r: Vec<usize>)
    requires
        forall|j: int| 0 <= j < bucket@.len() ==> (#[trigger] bucket@[j] as int) < items@.len(),
    ensures
        r@.to_multiset() == bucket@.to_multiset(),
        r@.len() == bucket@.len(),
        forall|j: int| 0 <= j < r@.len() ==> (#[trigger] r@[j] as int) < items@.len(),
        sorted_indices(items@, r@),
{
    broadcast use vstd::seq_lib::group_to_multiset_ensures;

    let mut src: Vec<usize> = Vec::new();
    let mut i: usize = 0;
    while i < bucket.len()
        invariant
            i <= bucket@.len(),
            src@ =~= bucket@.subrange(0, i as int),
        decreases bucket@.len() - i,
    {
        src.push(bucket[i]);
        i = i + 1;
    }
    assert(src@ =~= bucket@);
    let mut out: Vec<usize> = Vec::new();
    proof {
        assert(out@.to_multiset().add(src@.to_multiset()) =~= bucket@.to_multiset());
    }
    while src.len() > 0
        invariant
            out@.to_multiset().add(src@.to_multiset()) == bucket@.to_multiset(),
            out@.len() + src@.len() == bucket@.len(),
            forall|j: int| 0 <= j < src@.len() ==> (#[trigger] src@[j] as int) < items@.len(),
            forall|j: int| 0 <= j < out@.len() ==> (#[trigger] out@[j] as int) < items@.len(),
            sorted_indices(items@, out@),
            forall|x: int, y: int|
                #![trigger out@[x], src@[y]]
                0 <= x < out@.len() && 0 <= y < src@.len() ==> item_le(
                    items@[out@[x] as int],
                    items@[src@[y] as int],
                ),
        decreases src@.len(),
    {
        let mut min_i: usize = 0;
        let mut j: usize = 1;
        proof {
            lemma_item_le_total(items@[src@[0] as int], items@[src@[0] as int]);
        }
        while j < src.len()
            invariant
                src@.len() > 0,
                (min_i as int) < src@.len(),
                1 <= j <= src@.len(),
                forall|t: int| 0 <= t < j ==> item_le(
                    items@[src@[min_i as int] as int],
                    #[trigger] items@[src@[t] as int],
                ),
                forall|t: int| 0 <= t < src@.len() ==> (#[trigger] src@[t] as int) < items@.len(),
            decreases src@.len() - j,
        {
            let cand = src[j];
            let cur = src[min_i];
            // switch only on a strictly smaller candidate, so that ties keep
            // the earlier entry and the sort stays stable
            if !item_le_exec(&items[cur], &items[cand]) {
                proof {
                    lemma_item_le_total(
                        items@[src@[min_i as int] as int],
                        items@[src@[j as int] as int],
                    );
                    assert forall|t: int| 0 <= t < j + 1 implies item_le(
                        items@[src@[j as int] as int],
                        #[trigger] items@[src@[t] as int],
                    ) by {
                        lemma_item_le_total(items@[src@[j as int] as int], items@[src@[j as int] as int]);
                        if t < j {
                            lemma_item_le_trans(
                                items@[src@[j as int] as int],
                                items@[src@[min_i as int] as int],
                                items@[src@[t] as int],
                            );
                        }
                    }
                }
                min_i = j;
            }
            j = j + 1;
        }
        let ghost old_src = src@;
        let ghost old_out = out@;
        let v = src.remove(min_i);
        out.push(v);
        proof {
            assert(v == old_src[min_i as int]);
            vstd::seq_lib::to_multiset_remove(old_src, min_i as int);
            vstd::seq_lib::to_multiset_build(old_out, v);
            assert(old_src.remove(min_i as int).to_multiset() == old_src.to_multiset().remove(v));
            assert(old_out.push(v).to_multiset() =~= old_out.to_multiset().insert(v));
            assert(out@.to_multiset().add(src@.to_multiset()) =~= bucket@.to_multiset()) by {
                assert(old_src.to_multiset().count(v) > 0) by {
                    assert(old_src[min_i as int] == v);
                    assert(old_src.contains(v));
                    vstd::seq_lib::to_multiset_contains(old_src, v);
                }
            }
            assert forall|x: int, y: int|
                #![trigger out@[x], src@[y]]
                0 <= x < out@.len() && 0 <= y < src@.len() implies item_le(
                items@[out@[x] as int],
                items@[src@[y] as int],
            ) by {
                let sy = src@[y];
                assert(sy == if y < min_i as int {
                    old_src[y]
                } else {
                    old_src[y + 1]
                });
                if x < out@.len() - 1 {
                    assert(item_le(items@[out@[x] as int], items@[v as int]));
                    assert(item_le(items@[v as int], items@[sy as int]));
                    lemma_item_le_trans(
                        items@[out@[x] as int],
                        items@[v as int],
                        items@[sy as int],
                    );
                } else {
                    assert(out@[x] == v);
                    assert(item_le(items@[v as int], items@[sy as int]));
                }
            }
            assert forall|x: int, y: int|
                #![trigger out@[x], out@[y]]
                0 <= x < y < out@.len() implies item_le(
                items@[out@[x] as int],
                items@[out@[y] as int],
            ) by {
                if y < out@.len() - 1 {
                    assert(out@[x] == old_out[x] && out@[y] == old_out[y]);
                } else {
                    assert(out@[y] == v);
                    assert(old_out.len() == 0 || item_le(
                        items@[old_out[x] as int],
                        items@[old_src[min_i as int] as int],
                    ));
                }
            }
        }
    }
    proof {
        assert(src@.to_multiset().len() == 0);
        assert(src@.to_multiset() =~= Multiset::<usize>::empty());
        assert(out@.to_multiset() =~= bucket@.to_multiset()) by {
            assert forall|x: usize| out@.to_multiset().count(x) == bucket@.to_multiset().count(
                x,
            ) by {
                assert(out@.to_multiset().add(src@.to_multiset()).count(x) == out@.to_multiset()
                    .count(x) + src@.to_multiset().count(x));
            }
        }
        assert(out@.to_multiset().len() == bucket@.to_multiset().len());
    }
    out
}

impl Structure {
    /// Sort every parent bucket by item order: explicit `order` ascending,
    /// ties by title. The barrier between the build phase and the read
    /// phase: queries come after, inserts before.
    pub fn sort(&mut self)
        requires
            old(self).wf(),
        ensures
            final(self).wf(),
            final(self).is_read_phase(),
            final(self).item_map() == old(self).item_map(),
            final(self).left_notifs() == old(self).left_notifs(),
            final(self).right_notifs() == old(self).right_notifs(),
            forall|k: Seq<char>| final(self).has_children(k) == old(self).has_children(k),
            forall|k: Seq<char>| #[trigger]
                final(self).has_children(k) ==> sorted_items(final(self).children_of(k)) && final(self).children_of(k).to_multiset() == old(self).children_of(k).to_multiset(),
            forall|k: Seq<char>|
                !(#[trigger] final(self).has_children(k)) ==> final(self).children_of(k) == old(self).children_of(k),
    {
        let ghost old_self = *self;
        let n = self.buckets.len();
        let mut b: usize = 0;
        while b < n
            invariant
                b <= n,
                n == self.buckets@.len(),
                self.items == old_self.items,
                self.by_path == old_self.by_path,
                self.by_parent == old_self.by_parent,
                self.left_cache == old_self.left_cache,
                self.right_cache == old_self.right_cache,
                self.notif_lists == old_self.notif_lists,
                self.read_phase == old_self.read_phase,
                self.buckets@.len() == old_self.buckets@.len(),
                forall|i: int| b <= i < n ==> self.buckets@[i] == old_self.buckets@[i],
                forall|i: int|
                    0 <= i < b ==> (#[trigger] self.buckets@[i])@.to_multiset()
                        == old_self.buckets@[i]@.to_multiset() && self.buckets@[i]@.len()
                        == old_self.buckets@[i]@.len() && sorted_indices(
                        self.items@,
                        self.buckets@[i]@,
                    ) && (forall|j: int|
                        0 <= j < self.buckets@[i]@.len() ==> (#[trigger] self.buckets@[i]@[j] as int)
                            < self.items@.len()),
                old_self.wf(),
            decreases n - b,
        {
            proof {
                assert(bucket_indices_valid(old_self.items@, old_self.buckets@[b as int]@));
            }
            let sorted_b = sort_bucket(&self.items, &self.buckets[b]);
            self.buckets.set(b, sorted_b);
            b = b + 1;
        }
        self.read_phase = true;
        proof {
            broadcast use vstd::seq_lib::group_to_multiset_ensures;

            assert forall|i: int| 0 <= i < self.buckets@.len() implies bucket_indices_valid(
                self.items@,
                #[trigger] self.buckets@[i]@,
            ) by {
            }

            assert forall|k: Seq<char>| #[trigger]
                self.parent_contents().contains_key(k) implies (self.parent_contents()[k] as int)
                < self.buckets@.len() && bucket_entries_wf(
                self.items@,
                self.buckets@[self.parent_contents()[k] as int]@,
                k,
            ) by {
                assert(old_self.parent_contents().contains_key(k));
                let bi = self.parent_contents()[k] as int;
                let nb = self.buckets@[bi]@;
                let ob = old_self.buckets@[bi]@;
                assert(bucket_entries_wf(old_self.items@, ob, k));
                assert forall|j: int| 0 <= j < nb.len() implies (#[trigger] nb[j] as int)
                    < self.items@.len() && parent_path_spec(self.items@[nb[j] as int].path@)
                    == Some(k) by {
                    assert(nb.to_multiset() == ob.to_multiset());
                    assert(nb.contains(nb[j]));
                    assert(nb.to_multiset().count(nb[j]) > 0);
                    assert(ob.to_multiset().count(nb[j]) > 0);
                    assert(ob.contains(nb[j]));
                    let l = choose|l: int| 0 <= l < ob.len() && ob[l] == nb[j];
                    assert((ob[l] as int) < old_self.items@.len());
                }
            }
            assert(self.item_map() =~= old_self.item_map());
            assert(self.left_notifs() =~= old_self.left_notifs());
            assert(self.right_notifs() =~= old_self.right_notifs());
            assert forall|k: Seq<char>| #[trigger]
                self.has_children(k) implies sorted_items(self.children_of(k))
                && self.children_of(k).to_multiset() == old_self.children_of(k).to_multiset() by {
                assert(old_self.parent_contents().contains_key(k));
                let bi = self.parent_contents()[k] as int;
                let nb = self.buckets@[bi]@;
                let ob = old_self.buckets@[bi]@;
                let f = |j: usize| self.items@[j as int];
                lemma_map_values_multiset(nb, ob, f);
                assert(self.children_of(k) == nb.map_values(f));
                assert(old_self.children_of(k) == ob.map_values(f));
                assert(sorted_items(nb.map_values(f))) by {
                    assert forall|x: int, y: int|
                        0 <= x < y < nb.map_values(f).len() implies item_le(
                        #[trigger] nb.map_values(f)[x],
                        #[trigger] nb.map_values(f)[y],
                    ) by {
                        assert(sorted_indices(self.items@, nb));
                        assert(item_le(items_of(self.items@, nb[x]), items_of(self.items@, nb[y])));
                    }
                }
            }
        }
    }

}

/// The arena item at an index.
spec fn items_of(items: Seq<Item>, j: usize) -> Item {
    items[j as int]
}

} // verus!

verus! {

/// The notification list a path inherits from a cache: its own entry, or
/// the nearest ancestor's, or empty when no ancestor has one.
pub open spec fn inherited_from(m: Map<Seq<char>, Seq<Seq<char>>>, p: Seq<char>) -> Seq<Seq<char>>
    decreases p.len(),
    via inherited_from_decreases
{
    if m.contains_key(p) {
        m[p]
    } else {
        match parent_path_spec(p) {
            None => Seq::empty(),
            Some(q) => inherited_from(m, q),
        }
    }
}

#[via_fn]
proof fn inherited_from_decreases(m: Map<Seq<char>, Seq<Seq<char>>>, p: Seq<char>) {
    lemma_last_slash_bounds(p);
}

impl Structure {
    /// The item at a path; a missing path is a fatal configuration error.
    pub fn get_item(&self, path: &str) -> (r: Result<&Item, SiteError>)
        requires
            self.wf(),
            self.is_read_phase(),
        ensures
            r is Ok <==> self.item_map().contains_key(path@),
            r matches Ok(it) ==> *it == self.item_map()[path@],
            r matches Err(e) ==> e matches SiteError::UnknownPath(s) && s@ == path@,
    {
        match index_map_get(&self.by_path, path) {
            Some(idx) => Ok(&self.items[idx]),
            None => Err(SiteError::UnknownPath(String::from_str(path))),
        }
    }

    /// The childless navigation node of the item at a path.
    pub fn get_menu_item(&self, path: &str) -> (r: Result<MenuItem, SiteError>)
        requires
            self.wf(),
            self.is_read_phase(),
        ensures
            r is Ok <==> self.item_map().contains_key(path@),
            r matches Ok(m) ==> is_side_item_of(m, self.item_map()[path@]),
            r matches Err(e) ==> e matches SiteError::UnknownPath(s) && s@ == path@,
    {
        match self.get_item(path) {
            Ok(it) => Ok(it.to_side_menu_item(None)),
            Err(e) => Err(e),
        }
    }

    /// The left notifications a path inherits: its own cached list, else the
    /// nearest ancestor's, else empty.
    pub fn get_left_sub_notifications(&self, path: &str) -> (r: Vec<String>)
        requires
            self.wf(),
            self.is_read_phase(),
            wf_path(path@),
        ensures
            r.deep_view() == inherited_from(self.left_notifs(), path@),
    {
        let mut cur: String = String::from_str(path);
        loop
            invariant
                self.wf(),
                wf_path(cur@),
                inherited_from(self.left_notifs(), path@) == inherited_from(
                    self.left_notifs(),
                    cur@,
                ),
            decreases cur@.len(),
        {
            match index_map_get(&self.left_cache, cur.as_str()) {
                Some(idx) => {
                    let r = clone_string_vec(&self.notif_lists[idx]);
                    proof {
                        assert(self.left_notifs().contains_key(cur@));
                        assert(r.deep_view() == self.notif_lists@[idx as int].deep_view());
                    }
                    return r;
                },
                None => {
                    proof {
                        assert(!self.left_notifs().contains_key(cur@));
                    }
                    match parent_path(cur.as_str()) {
                        None => {
                            return Vec::new();
                        },
                        Some(p) => {
                            proof {
                                crate::paths::lemma_parent_path(cur@);
                            }
                            cur = p;
                        },
                    }
                },
            }
        }
    }

    /// The right notifications a path inherits: its own cached list, else
    /// the nearest ancestor's, else empty.
    pub fn get_right_sub_notifications(&self, path: &str) -> (r: Vec<String>)
        requires
            self.wf(),
            self.is_read_phase(),
            wf_path(path@),
        ensures
            r.deep_view() == inherited_from(self.right_notifs(), path@),
    {
        let mut cur: String = String::from_str(path);
        loop
            invariant
                self.wf(),
                wf_path(cur@),
                inherited_from(self.right_notifs(), path@) == inherited_from(
                    self.right_notifs(),
                    cur@,
                ),
            decreases cur@.len(),
        {
            match index_map_get(&self.right_cache, cur.as_str()) {
                Some(idx) => {
                    let r = clone_string_vec(&self.notif_lists[idx]);
                    proof {
                        assert(self.right_notifs().contains_key(cur@));
                        assert(r.deep_view() == self.notif_lists@[idx as int].deep_view());
                    }
                    return r;
                },
                None => {
                    proof {
                        assert(!self.right_notifs().contains_key(cur@));
                    }
                    match parent_path(cur.as_str()) {
                        None => {
                            return Vec::new();
                        },
                        Some(p) => {
                            proof {
                                crate::paths::lemma_parent_path(cur@);
                            }
                            cur = p;
                        },
                    }
                },
            }
        }
    }

    /// What the breadcrumb trail of a path shows: nothing at depth <= 1,
    /// else every proper ancestor as a childless node, root first.
    pub open spec fn breadcrumbs_expected(&self, p: Seq<char>, o: Option<Vec<MenuItem>>) -> bool {
        if count_slashes(p) <= 1 {
            o is None
        } else {
            o matches Some(v) && v@.len() == crate::paths::ancestors_of(p).len() && (forall|i: int|
                0 <= i < v@.len() ==> is_side_item_of(
                    #[trigger] v@[i],
                    self.item_map()[crate::paths::ancestors_of(p)[i]],
                ))
        }
    }

    /// The breadcrumb trail of a path: none for depth <= 1; otherwise every
    /// proper ancestor as a childless node, root first, the path itself not
    /// included. An ancestor without an item is a configuration error.
    pub fn get_breadcrumbs(&self, path: &str) -> (r: Result<Option<Vec<MenuItem>>, SiteError>)
        requires
            self.wf(),
            self.is_read_phase(),
            wf_path(path@),
        ensures
            count_slashes(path@) <= 1 ==> r == Ok::<Option<Vec<MenuItem>>, SiteError>(None),
            count_slashes(path@) > 1 ==> {
                &&& (r is Ok <==> forall|i: int|
                    0 <= i < crate::paths::ancestors_of(path@).len() ==> self.item_map()
                        .contains_key(#[trigger] crate::paths::ancestors_of(path@)[i]))
                &&& r matches Ok(Some(v)) ==> {
                    &&& v@.len() == crate::paths::ancestors_of(path@).len()
                    &&& forall|i: int|
                        0 <= i < v@.len() ==> is_side_item_of(
                            #[trigger] v@[i],
                            self.item_map()[crate::paths::ancestors_of(path@)[i]],
                        )
                }
                &&& r matches Ok(o) ==> o is Some
                &&& r matches Err(e) ==> e matches SiteError::UnknownPath(s)
                    && crate::paths::ancestors_of(path@).contains(s@) && !self.item_map()
                    .contains_key(s@)
            },
    {
        let d = depth(path);
        if d <= 1 {
            return Ok(None);
        }
        let ghost chain = crate::paths::ancestors_of(path@);
        let mut rev: Vec<MenuItem> = Vec::new();
        let ghost mut done: Seq<Seq<char>> = Seq::empty();
        let mut parent = parent_path(path);
        proof {
            crate::paths::lemma_parent_path(path@);
            assert(count_slashes(Seq::<char>::empty()) == 0);
            assert(crate::paths::root_path().drop_last() =~= Seq::<char>::empty());
            assert(count_slashes(crate::paths::root_path()) == 1);
            assert(path@ != crate::paths::root_path());
            assert(chain =~= (match parent {
                Some(ref c) => crate::paths::ancestors_of(c@).push(c@),
                None => Seq::empty(),
            }) + done.reverse());
        }
        loop
            invariant
                self.wf(),
                self.is_read_phase(),
                count_slashes(path@) > 1,
                chain == crate::paths::ancestors_of(path@),
                rev@.len() == done.len(),
                forall|j: int|
                    0 <= j < done.len() ==> self.item_map().contains_key(#[trigger] done[j])
                        && is_side_item_of(rev@[j], self.item_map()[done[j]]),
                forall|j: int| 0 <= j < done.len() ==> chain.contains(#[trigger] done[j]),
                parent matches Some(ref c) ==> wf_path(c@),
                chain =~= (match parent {
                    Some(ref c) => crate::paths::ancestors_of(c@).push(c@),
                    None => Seq::empty(),
                }) + done.reverse(),
            ensures
                parent is None,
            decreases (match parent {
                Some(ref c) => c@.len() as int + 1,
                None => 0int,
            }),
        {
            match parent {
                None => {
                    break ;
                },
                Some(p) => {
                    let ghost old_done = done;
                    match index_map_get(&self.by_path, p.as_str()) {
                        None => {
                            proof {
                                assert(chain.contains(p@)) by {
                                    assert(chain[chain.len() - 1 - done.len()] == p@);
                                }
                            }
                            return Err(SiteError::UnknownPath(p));
                        },
                        Some(idx) => {
                            rev.push(self.items[idx].to_side_menu_item(None));
                            proof {
                                done = done.push(p@);
                                assert(done.reverse() =~= seq![p@] + old_done.reverse());
                                assert(chain.contains(p@)) by {
                                    assert(chain[chain.len() - done.len()] == p@);
                                }
                            }
                            let next = parent_path(p.as_str());
                            proof {
                                crate::paths::lemma_parent_path(p@);
                                if next is Some {
                                    assert(p@ != crate::paths::root_path());
                                    assert(crate::paths::ancestors_of(p@)
                                        =~= crate::paths::ancestors_of(
                                        parent_path_spec(p@)->Some_0,
                                    ).push(parent_path_spec(p@)->Some_0));
                                } else {
                                    assert(p@.len() <= 1);
                                    assert(p@ =~= crate::paths::root_path());
                                    assert(crate::paths::ancestors_of(p@) =~= Seq::<
                                        Seq<char>,
                                    >::empty());
                                }
                            }
                            parent = next;
                        },
                    }
                },
            }
        }
        proof {
            assert(chain =~= done.reverse());
            assert(done =~= chain.reverse()) by {
                assert forall|i: int| 0 <= i < done.len() implies done[i] == chain.reverse()[i] by {
                    assert(chain[done.len() - 1 - i] == done.reverse()[done.len() - 1 - i]);
                }
            }
        }
        let mut out: Vec<MenuItem> = Vec::new();
        let ghost total = rev@;
        while rev.len() > 0
            invariant
                out@.len() + rev@.len() == total.len(),
                rev@ =~= total.subrange(0, rev@.len() as int),
                forall|j: int|
                    0 <= j < out@.len() ==> out@[j] == total[total.len() - 1 - j],
            decreases rev@.len(),
        {
            let m = rev.pop().unwrap();
            out.push(m);
        }
        proof {
            assert(out@.len() == chain.len());
            assert forall|i: int| 0 <= i < out@.len() implies self.item_map().contains_key(
                #[trigger] chain[i],
            ) && is_side_item_of(out@[i], self.item_map()[chain[i]]) by {
                assert(out@[i] == total[total.len() - 1 - i]);
                assert(done[total.len() - 1 - i] == chain.reverse()[total.len() - 1 - i]);
                assert(chain.reverse()[total.len() - 1 - i] == chain[i]);
            }
        }
        Ok(Some(out))
    }
}

} // verus!

verus! {

/// The entries of `s` whose path is not `p`, in order.
pub open spec fn filter_not_path(s: Seq<Item>, p: Seq<char>) -> Seq<Item>
    decreases s.len(),
{
    if s.len() == 0 {
        Seq::empty()
    } else if s.last().path@ != p {
        filter_not_path(s.drop_last(), p).push(s.last())
    } else {
        filter_not_path(s.drop_last(), p)
    }
}

/// The sibling selection shown beside a page: of the last four entries of
/// the bucket, those other than the page itself, at most the last three,
/// in bucket order.
pub open spec fn side_selection(bucket: Seq<Item>, p: Seq<char>) -> Seq<Item> {
    let start = if bucket.len() >= 4 {
        bucket.len() - 4
    } else {
        0
    };
    let f = filter_not_path(bucket.skip(start as int), p);
    if f.len() >= 3 {
        f.skip(f.len() - 3)
    } else {
        f
    }
}

impl Structure {
    /// The childless navigation nodes of one bucket, in bucket order.
    fn bucket_side_items(&self, b: usize) -> (r: Vec<MenuItem>)
        requires
            self.wf(),
            (b as int) < self.buckets@.len(),
        ensures
            r@.len() == self.buckets@[b as int]@.len(),
            forall|j: int|
                0 <= j < r@.len() ==> is_side_item_of(
                    #[trigger] r@[j],
                    self.items@[self.buckets@[b as int]@[j] as int],
                ),
    {
        let mut r: Vec<MenuItem> = Vec::new();
        let n = self.buckets[b].len();
        let mut j: usize = 0;
        while j < n
            invariant
                self.wf(),
                (b as int) < self.buckets@.len(),
                n == self.buckets@[b as int]@.len(),
                j <= n,
                r@.len() == j,
                forall|t: int|
                    0 <= t < j ==> is_side_item_of(
                        #[trigger] r@[t],
                        self.items@[self.buckets@[b as int]@[t] as int],
                    ),
            decreases n - j,
        {
            proof {
                assert(bucket_indices_valid(self.items@, self.buckets@[b as int]@));
            }
            let idx = self.buckets[b][j];
            r.push(self.items[idx].to_side_menu_item(None));
            j = j + 1;
        }
        r
    }

    /// Whether a configured main-menu entry can be resolved: an external
    /// entry needs a title, an internal one needs an item at its URL.
    pub open spec fn entry_resolvable(&self, cfg: RawMenuItem) -> bool {
        if crate::strutil::starts_with_spec(cfg.url@, "https://"@) {
            cfg.title is Some
        } else {
            self.item_map().contains_key(cfg.url@)
        }
    }

    /// The resolved node of one configured main-menu entry.
    pub open spec fn main_menu_entry_ok(&self, cfg: RawMenuItem, m: MenuItem) -> bool {
        if crate::strutil::starts_with_spec(cfg.url@, "https://"@) {
            &&& m.menu_type is External
            &&& m.url@ == cfg.url@
            &&& Some(m.title@) == opt_view(cfg.title)
            &&& opt_view(m.icon) == opt_view(cfg.icon)
            &&& m.children is None
        } else {
            let it = self.item_map()[cfg.url@];
            &&& m.menu_type is Internal
            &&& m.url@ == it.path@
            &&& m.title@ == (match cfg.title {
                Some(t) => t@,
                None => it.title@,
            })
            &&& opt_view(m.icon) == (match cfg.icon {
                Some(i) => Some(i@),
                None => opt_view(it.icon),
            })
            &&& if self.has_children(cfg.url@) {
                m.children matches Some(c) && c@.len() == self.children_of(cfg.url@).len() && (
                forall|j: int|
                    0 <= j < c@.len() ==> is_side_item_of(
                        #[trigger] c@[j],
                        self.children_of(cfg.url@)[j],
                    ))
            } else {
                m.children is None
            }
        }
    }

    /// The error of one unresolvable main-menu entry.
    pub open spec fn entry_error_matches(&self, cfg: RawMenuItem, e: SiteError) -> bool {
        if crate::strutil::starts_with_spec(cfg.url@, "https://"@) {
            e matches SiteError::MissingExternalTitle(s) && s@ == cfg.url@
        } else {
            e matches SiteError::UnknownPath(s) && s@ == cfg.url@
        }
    }

    /// The main menu, one node per configured entry, in configuration
    /// order. An external entry without a title, or an internal entry whose
    /// URL has no item, is a fatal configuration error.
    pub fn get_main_menu_items(&self, menu_config: &MenuConfig) -> (r: Result<
        Vec<MenuItem>,
        SiteError,
    >)
        requires
            self.wf(),
            self.is_read_phase(),
        ensures
            r is Ok <==> (forall|i: int|
                0 <= i < menu_config.main_menu@.len() ==> self.entry_resolvable(
                    #[trigger] menu_config.main_menu@[i],
                )),
            r matches Ok(v) ==> v@.len() == menu_config.main_menu@.len() && (forall|i: int|
                0 <= i < v@.len() ==> self.main_menu_entry_ok(
                    menu_config.main_menu@[i],
                    #[trigger] v@[i],
                )),
            r matches Err(e) ==> exists|i: int|
                0 <= i < menu_config.main_menu@.len() && !self.entry_resolvable(
                    #[trigger] menu_config.main_menu@[i],
                ) && self.entry_error_matches(menu_config.main_menu@[i], e),
    {
        let mut result: Vec<MenuItem> = Vec::new();
        let n = menu_config.main_menu.len();
        let mut i: usize = 0;
        while i < n
            invariant
                self.wf(),
                self.is_read_phase(),
                n == menu_config.main_menu@.len(),
                i <= n,
                result@.len() == i,
                forall|j: int|
                    0 <= j < i ==> self.entry_resolvable(#[trigger] menu_config.main_menu@[j]),
                forall|j: int|
                    0 <= j < i ==> self.main_menu_entry_ok(
                        menu_config.main_menu@[j],
                        #[trigger] result@[j],
                    ),
            decreases n - i,
        {
            let entry = &menu_config.main_menu[i];
            if crate::strutil::str_starts_with(entry.url.as_str(), "https://") {
                match entry.to_external_item() {
                    Ok(m) => result.push(m),
                    Err(e) => {
                        return Err(e);
                    },
                }
            } else {
                match index_map_get(&self.by_path, entry.url.as_str()) {
                    None => {
                        return Err(SiteError::UnknownPath(entry.url.clone()));
                    },
                    Some(idx) => {
                        let children = match index_map_get(&self.by_parent, entry.url.as_str()) {
                            Some(b) => Some(self.bucket_side_items(b)),
                            None => None,
                        };
                        let m = self.items[idx].to_main_menu_item(
                            clone_opt_string(&entry.title),
                            clone_opt_string(&entry.icon),
                            children,
                        );
                        proof {
                            assert(self.main_menu_entry_ok(menu_config.main_menu@[i as int], m));
                        }
                        result.push(m);
                    },
                }
            }
            i = i + 1;
        }
        Ok(result)
    }

    /// Whether the side-menu query can resolve every lookup it needs.
    pub open spec fn side_menu_defined(&self, p: Seq<char>) -> bool {
        let d = count_slashes(p);
        if d <= 2 {
            true
        } else if self.has_children(p) {
            self.item_map().contains_key(p)
        } else if d == 3 {
            true
        } else {
            self.item_map().contains_key(parent_path_spec(p)->Some_0)
        }
    }

    /// The path whose missing item a failing side-menu query reports.
    pub open spec fn side_menu_err_subject(&self, p: Seq<char>) -> Seq<char> {
        if count_slashes(p) > 3 && !self.has_children(p) {
            parent_path_spec(p)->Some_0
        } else {
            p
        }
    }

    /// What the side menu of a path shows.
    pub open spec fn side_menu_expected(&self, p: Seq<char>, o: Option<MenuItem>) -> bool {
        let d = count_slashes(p);
        if d <= 2 {
            o is None
        } else if d == 3 {
            if !self.has_children(p) {
                o is None
            } else {
                o matches Some(m) && is_side_item_with_children(
                    m,
                    self.item_map()[p],
                    self.children_of(p),
                )
            }
        } else if self.has_children(p) {
            o matches Some(m) && is_side_item_with_children(
                m,
                self.item_map()[p],
                self.children_of(p),
            )
        } else {
            let q = parent_path_spec(p)->Some_0;
            o matches Some(m) && {
                let it = self.item_map()[q];
                &&& m.menu_type is Internal
                &&& m.url@ == it.path@
                &&& m.title@ == it.title@
                &&& opt_view(m.icon) == opt_view(it.icon)
                &&& if self.has_children(q) {
                    m.children matches Some(c) && c@.len() == self.children_of(q).len() && (
                    forall|j: int|
                        0 <= j < c@.len() ==> is_side_item_of(
                            #[trigger] c@[j],
                            self.children_of(q)[j],
                        ))
                } else {
                    m.children is None
                }
            }
        }
    }

    /// The side menu of a path: none for depth <= 2; at depth 3 the path's
    /// node with its children, or none when it has none; deeper, the path's
    /// node with its children, falling back to the parent's node with the
    /// sibling group when the path has no children of its own.
    pub fn get_side_menu_items(&self, path: &str) -> (r: Result<Option<MenuItem>, SiteError>)
        requires
            self.wf(),
            self.is_read_phase(),
            wf_path(path@),
        ensures
            r is Ok <==> self.side_menu_defined(path@),
            r matches Ok(o) ==> self.side_menu_expected(path@, o),
            r matches Err(e) ==> e matches SiteError::UnknownPath(s) && s@
                == self.side_menu_err_subject(path@),
    {
        let d = depth(path);
        if d <= 2 {
            return Ok(None);
        }
        match index_map_get(&self.by_parent, path) {
            Some(b) => {
                let children = self.bucket_side_items(b);
                match index_map_get(&self.by_path, path) {
                    None => Err(SiteError::UnknownPath(String::from_str(path))),
                    Some(idx) => {
                        let m = self.items[idx].to_side_menu_item(Some(children));
                        Ok(Some(m))
                    },
                }
            },
            None => {
                if d == 3 {
                    return Ok(None);
                }
                proof {
                    crate::paths::lemma_count_slashes_le_len(path@);
                }
                let p = parent_path(path).unwrap();
                match index_map_get(&self.by_path, p.as_str()) {
                    None => Err(SiteError::UnknownPath(p)),
                    Some(idx) => {
                        let children = match index_map_get(&self.by_parent, p.as_str()) {
                            Some(b2) => Some(self.bucket_side_items(b2)),
                            None => None,
                        };
                        let m = self.items[idx].to_side_menu_item(children);
                        Ok(Some(m))
                    },
                }
            },
        }
    }

    /// The sibling pages shown as side notifications: from the page's own
    /// bucket, or its parent's when it has none, the last three entries in
    /// bucket order other than the page itself. A page with neither bucket
    /// is a fatal configuration error.
    pub fn get_side_notifications(&self, path: &str) -> (r: Result<Vec<Item>, SiteError>)
        requires
            self.wf(),
            self.is_read_phase(),
            wf_path(path@),
        ensures
            r is Ok <==> (self.has_children(path@) || (parent_path_spec(path@) matches Some(q)
                && self.has_children(q))),
            r matches Ok(v) ==> v@ == side_selection(
                if self.has_children(path@) {
                    self.children_of(path@)
                } else {
                    self.children_of(parent_path_spec(path@)->Some_0)
                },
                path@,
            ),
            r matches Err(e) ==> e matches SiteError::UnknownPath(s) && s@ == path@,
    {
        let b = match index_map_get(&self.by_parent, path) {
            Some(b) => b,
            None => {
                match parent_path(path) {
                    None => {
                        return Err(SiteError::UnknownPath(String::from_str(path)));
                    },
                    Some(p) => {
                        match index_map_get(&self.by_parent, p.as_str()) {
                            Some(b) => b,
                            None => {
                                return Err(SiteError::UnknownPath(String::from_str(path)));
                            },
                        }
                    },
                }
            },
        };
        let ghost bucket = self.buckets@[b as int]@.map_values(|j: usize| self.items@[j as int]);
        proof {
            assert(bucket_indices_valid(self.items@, self.buckets@[b as int]@));
        }
        let blen = self.buckets[b].len();
        let start = if blen >= 4 {
            blen - 4
        } else {
            0
        };
        let path_s = String::from_str(path);
        let mut temp: Vec<Item> = Vec::new();
        let mut j: usize = start;
        proof {
            assert(bucket.skip(start as int).take(0) =~= Seq::<Item>::empty());
        }
        while j < blen
            invariant
                self.wf(),
                (b as int) < self.buckets@.len(),
                bucket == self.buckets@[b as int]@.map_values(|t: usize| self.items@[t as int]),
                blen == bucket.len(),
                start as int == if blen >= 4 {
                    blen - 4
                } else {
                    0int
                },
                start <= j <= blen,
                path_s@ == path@,
                temp@ =~= filter_not_path(bucket.skip(start as int).take((j - start) as int), path@),
            decreases blen - j,
        {
            proof {
                assert(bucket_indices_valid(self.items@, self.buckets@[b as int]@));
                assert(bucket.skip(start as int).take((j + 1 - start) as int).drop_last()
                    =~= bucket.skip(start as int).take((j - start) as int));
                assert(bucket.skip(start as int).take((j + 1 - start) as int).last() == bucket[
                    j as int]);
            }
            let idx = self.buckets[b][j];
            let it = &self.items[idx];
            if !(it.path == path_s) {
                temp.push(it.duplicate());
            }
            j = j + 1;
        }
        proof {
            assert(bucket.skip(start as int).take((blen - start) as int) =~= bucket.skip(
                start as int,
            ));
        }
        let extra = if temp.len() > 3 {
            temp.len() - 3
        } else {
            0
        };
        let mut out: Vec<Item> = Vec::new();
        let mut t: usize = extra;
        while t < temp.len()
            invariant
                extra <= t <= temp@.len(),
                out@ =~= temp@.subrange(extra as int, t as int),
            decreases temp@.len() - t,
        {
            out.push(temp[t].duplicate());
            t = t + 1;
        }
        proof {
            assert(out@ =~= temp@.skip(extra as int));
            assert(out@ == side_selection(bucket, path@));
        }
        Ok(out)
    }
}

} // verus!

verus! {

/// A classified social link: one of four known platforms carrying only a
/// URL, or a generic link that must carry its own icon and color.
#[derive(Debug, PartialEq, Eq)]
pub enum SocialItem {
    Github(String),
    LinkedIn(String),
    Facebook(String),
    YouTube(String),
    Other(String, String, String),
}

/// How a raw social link classifies, by URL prefix against the fixed
/// platform list, first match winning.
pub open spec fn social_expected(raw: RawSocialItem, r: Result<SocialItem, SiteError>) -> bool {
    if crate::strutil::starts_with_spec(raw.url@, "https://github.com/"@) {
        r matches Ok(s) && s matches SocialItem::Github(u) && u@ == raw.url@
    } else if crate::strutil::starts_with_spec(raw.url@, "https://www.linkedin.com/"@) {
        r matches Ok(s) && s matches SocialItem::LinkedIn(u) && u@ == raw.url@
    } else if crate::strutil::starts_with_spec(raw.url@, "https://www.facebook.com/"@) {
        r matches Ok(s) && s matches SocialItem::Facebook(u) && u@ == raw.url@
    } else if crate::strutil::starts_with_spec(raw.url@, "https://www.youtube.com/"@) {
        r matches Ok(s) && s matches SocialItem::YouTube(u) && u@ == raw.url@
    } else if raw.icon is None {
        r matches Err(e) && e matches SiteError::MissingSocialIcon(u) && u@ == raw.url@
    } else if raw.color is None {
        r matches Err(e) && e matches SiteError::MissingSocialColor(u) && u@ == raw.url@
    } else {
        r matches Ok(s) && s matches SocialItem::Other(u, i, c) && u@ == raw.url@ && Some(i@)
            == opt_view(raw.icon) && Some(c@) == opt_view(raw.color)
    }
}

impl SocialItem {
    /// Classify a configured social link by its URL prefix. A link matching
    /// no known platform without an icon or color is a configuration error.
    pub fn new(raw: &RawSocialItem) -> (r: Result<SocialItem, SiteError>)
        ensures
            social_expected(*raw, r),
    {
        let url = raw.url.clone();
        if crate::strutil::str_starts_with(url.as_str(), "https://github.com/") {
            Ok(SocialItem::Github(url))
        } else if crate::strutil::str_starts_with(url.as_str(), "https://www.linkedin.com/") {
            Ok(SocialItem::LinkedIn(url))
        } else if crate::strutil::str_starts_with(url.as_str(), "https://www.facebook.com/") {
            Ok(SocialItem::Facebook(url))
        } else if crate::strutil::str_starts_with(url.as_str(), "https://www.youtube.com/") {
            Ok(SocialItem::YouTube(url))
        } else {
            match raw.icon.as_ref() {
                None => Err(SiteError::MissingSocialIcon(url)),
                Some(icon) => match raw.color.as_ref() {
                    None => Err(SiteError::MissingSocialColor(url)),
                    Some(color) => Ok(SocialItem::Other(url, icon.clone(), color.clone())),
                },
            }
        }
    }

    /// The link's URL.
    pub fn get_url(&self) -> (r: &str)
        ensures
            r@ == match *self {
                SocialItem::Github(ref u) => u@,
                SocialItem::LinkedIn(ref u) => u@,
                SocialItem::Facebook(ref u) => u@,
                SocialItem::YouTube(ref u) => u@,
                SocialItem::Other(ref u, _, _) => u@,
            },
    {
        match self {
            SocialItem::Github(url) => url.as_str(),
            SocialItem::LinkedIn(url) => url.as_str(),
            SocialItem::Facebook(url) => url.as_str(),
            SocialItem::YouTube(url) => url.as_str(),
            SocialItem::Other(url, _, _) => url.as_str(),
        }
    }

    /// The icon that renders the link.
    pub fn get_icon(&self) -> (r: &str)
        ensures
            r@ == match *self {
                SocialItem::Github(_) => "github"@,
                SocialItem::LinkedIn(_) => "linkedin"@,
                SocialItem::Facebook(_) => "facebook"@,
                SocialItem::YouTube(_) => "youtube"@,
                SocialItem::Other(_, ref i, _) => i@,
            },
    {
        match self {
            SocialItem::Github(_) => "github",
            SocialItem::LinkedIn(_) => "linkedin",
            SocialItem::Facebook(_) => "facebook",
            SocialItem::YouTube(_) => "youtube",
            SocialItem::Other(_, icon, _) => icon.as_str(),
        }
    }

    /// The brand color of the link, as a hex triple.
    pub fn get_color(&self) -> (r: &str)
        ensures
            r@ == match *self {
                SocialItem::Github(_) => "171515"@,
                SocialItem::LinkedIn(_) => "0077b5"@,
                SocialItem::Facebook(_) => "4267B2"@,
                SocialItem::YouTube(_) => "c4302b"@,
                SocialItem::Other(_, _, ref c) => c@,
            },
    {
        match self {
            SocialItem::Github(_) => "171515",
            SocialItem::LinkedIn(_) => "0077b5",
            SocialItem::Facebook(_) => "4267B2",
            SocialItem::YouTube(_) => "c4302b",
            SocialItem::Other(_, _, color) => color.as_str(),
        }
    }
}

} // verus!
