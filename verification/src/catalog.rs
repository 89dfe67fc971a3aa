//! The source catalog: the wallpaper entries found by the last plugin scan,
//! listed in scan order, by wallpaper type, or found by item id. Each item
//! carries, as text, the type and the id the catalog looks entries up by.

use vstd::prelude::*;
use crate::text::str_eq;

verus! {

/// A catalog entry with the type and item id it is listed under.
pub struct CatalogItem<E> {
    pub wp_type: String,
    pub item_id: String,
    pub entry: E,
}

/// The positions of the items of type `t`, in order.
pub open spec fn positions_of_type<E>(items: Seq<CatalogItem<E>>, t: Seq<char>) -> Seq<int>
    decreases items.len(),
{
    if items.len() == 0 {
        Seq::empty()
    } else {
        let rest = positions_of_type(items.drop_last(), t);
        if items.last().wp_type@ == t {
            rest.push(items.len() - 1)
        } else {
            rest
        }
    }
}

/// The position of the first item with id `id`, if any.
pub open spec fn first_with_id<E>(items: Seq<CatalogItem<E>>, id: Seq<char>) -> Option<int>
    decreases items.len(),
{
    if items.len() == 0 {
        None
    } else {
        match first_with_id(items.drop_last(), id) {
            Some(i) => Some(i),
            None => if items.last().item_id@ == id {
                Some(items.len() - 1)
            } else {
                None
            },
        }
    }
}

proof fn lemma_first_with_id<E>(items: Seq<CatalogItem<E>>, id: Seq<char>)
    ensures
        first_with_id(items, id) matches Some(i) ==> 0 <= i < items.len() && items[i].item_id@ == id && forall|k: int|
            0 <= k < i ==> (#[trigger] items[k]).item_id@ != id,
        first_with_id(items, id) is None ==> forall|k: int| 0 <= k < items.len() ==> (#[trigger] items[k]).item_id@ != id,
    decreases items.len(),
{
    if items.len() > 0 {
        let rest = items.drop_last();
        lemma_first_with_id(rest, id);
        assert forall|k: int| 0 <= k < rest.len() implies #[trigger] items[k] == rest[k] by {}
    }
}

/// The entries of the last scan.
pub struct SourceCatalog<E> {
    items: Vec<CatalogItem<E>>,
}

impl<E> View for SourceCatalog<E> {
    type V = Seq<CatalogItem<E>>;

    closed spec fn view(&self) -> Seq<CatalogItem<E>> {
        self.items@
    }
}

impl<E> SourceCatalog<E> {
    /// An empty catalog.
    pub fn new() -> (r: Self)
        ensures
            r@ == Seq::<CatalogItem<E>>::empty(),
    {
        SourceCatalog { items: Vec::new() }
    }

    /// Replaces the whole catalog with the items of a new scan.
    pub fn replace(&mut self, items: Vec<CatalogItem<E>>)
        ensures
            final(self)@ == items@,
    {
        self.items = items;
    }

    /// Empties the catalog.
    pub fn clear(&mut self)
        ensures
            final(self)@ == Seq::<CatalogItem<E>>::empty(),
    {
        self.items = Vec::new();
    }

    /// Every item, in scan order.
    pub fn list(&self) -> (r: &[CatalogItem<E>])
        ensures
            r@ == self@,
    {
        self.items.as_slice()
    }

    /// The positions of the items of type `wp_type`, in scan order.
    pub fn list_by_type(&self, wp_type: &str) -> (r: Vec<usize>)
        ensures
            r@.len() == positions_of_type(self@, wp_type@).len(),
            forall|k: int| 0 <= k < r@.len() ==> r@[k] as int == #[trigger] positions_of_type(self@, wp_type@)[k],
    {
        let mut out: Vec<usize> = Vec::new();
        let mut i: usize = 0;
        proof {
            assert(self@.take(0) =~= Seq::<CatalogItem<E>>::empty());
        }
        while i < self.items.len()
            invariant
                0 <= i <= self@.len(),
                out@.len() == positions_of_type(self@.take(i as int), wp_type@).len(),
                forall|k: int|
                    0 <= k < out@.len() ==> out@[k] as int == #[trigger] positions_of_type(self@.take(i as int), wp_type@)[k],
            decreases self@.len() - i,
        {
            proof {
                assert(self@.take(i + 1).drop_last() =~= self@.take(i as int));
            }
            if str_eq(self.items[i].wp_type.as_str(), wp_type) {
                out.push(i);
            }
            i = i + 1;
        }
        proof {
            assert(self@.take(self@.len() as int) =~= self@);
        }
        out
    }

    /// The first entry whose item id reads `id`.
    pub fn get(&self, id: &str) -> (r: Option<&E>)
        ensures
            r is None <==> first_with_id(self@, id@) is None,
            r matches Some(e) ==> *e == self@[first_with_id(self@, id@)->0].entry,
    {
        proof {
            lemma_first_with_id(self@, id@);
        }
        let mut i: usize = 0;
        while i < self.items.len()
            invariant
                0 <= i <= self@.len(),
                forall|k: int| 0 <= k < i ==> (#[trigger] self@[k]).item_id@ != id@,
                first_with_id(self@, id@) matches Some(j) ==> 0 <= j < self@.len() && self@[j].item_id@ == id@
                    && forall|k: int| 0 <= k < j ==> (#[trigger] self@[k]).item_id@ != id@,
                first_with_id(self@, id@) is None ==> forall|k: int|
                    0 <= k < self@.len() ==> (#[trigger] self@[k]).item_id@ != id@,
            decreases self@.len() - i,
        {
            if str_eq(self.items[i].item_id.as_str(), id) {
                proof {
                    match first_with_id(self@, id@) {
                        Some(j) => {
                            if j > i {
                                assert(self@[i as int].item_id@ != id@);
                            }
                        },
                        None => {
                            assert(self@[i as int].item_id@ != id@);
                        },
                    }
                }
                return Some(&self.items[i].entry);
            }
            i = i + 1;
        }
        proof {
            if let Some(j) = first_with_id(self@, id@) {
                assert(self@[j].item_id@ != id@);
            }
        }
        None
    }
}

} // verus!
