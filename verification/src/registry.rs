//! The flat product registry: a single-level store of sellable items with
//! store-assigned, monotonically increasing ids. Unlike the shop catalog,
//! items here can be deleted — by their owner only — and an id is never
//! reused, even after its item is gone.

use vstd::prelude::*;

use crate::Error;

verus! {

/// An item of the flat registry.
#[derive(Debug)]
pub struct Product {
    /// Store-assigned key: unique forever, even across deletions.
    pub id: u32,
    pub owner: String,
    pub name: String,
    pub price: u128,
    pub description: String,
    pub image: String,
}

/// Mathematical image of a registry [`Product`].
#[verifier::ext_equal]
pub struct ProductView {
    pub id: u32,
    pub owner: Seq<char>,
    pub name: Seq<char>,
    pub price: u128,
    pub description: Seq<char>,
    pub image: Seq<char>,
}

impl View for Product {
    type V = ProductView;

    open spec fn view(&self) -> ProductView {
        ProductView {
            id: self.id,
            owner: self.owner@,
            name: self.name@,
            price: self.price,
            description: self.description@,
            image: self.image@,
        }
    }
}

impl DeepView for Product {
    type V = ProductView;

    open spec fn deep_view(&self) -> ProductView {
        self@
    }
}

impl Clone for Product {
    fn clone(&self) -> (res: Self)
        ensures
            res == *self,
    {
        Product {
            id: self.id,
            owner: self.owner.clone(),
            name: self.name.clone(),
            price: self.price,
            description: self.description.clone(),
            image: self.image.clone(),
        }
    }
}

/// Mathematical image of the [`Registry`].
#[verifier::ext_equal]
pub struct RegistryView {
    /// Live items, in creation order.
    pub items: Seq<ProductView>,
    /// The id the next created item will get.
    pub next_id: u32,
}

/// True when an item with key `id` is live.
pub open spec fn has_item(items: Seq<ProductView>, id: u32) -> bool {
    exists|i: int| 0 <= i < items.len() && items[i].id == id
}

/// Position of the item with key `id` (meaningful under `has_item`).
pub open spec fn item_index_of(items: Seq<ProductView>, id: u32) -> int {
    choose|i: int| 0 <= i < items.len() && items[i].id == id
}

/// The item with key `id` (meaningful under `has_item`).
pub open spec fn item_of(items: Seq<ProductView>, id: u32) -> ProductView {
    items[item_index_of(items, id)]
}

/// Why a deletion is refused, if it is: the item must be live and the caller
/// must be its owner.
pub open spec fn delete_error(r: RegistryView, caller: Seq<char>, id: u32) -> Option<Error> {
    if !has_item(r.items, id) {
        Some(Error::NotFound)
    } else if item_of(r.items, id).owner != caller {
        Some(Error::Unauthorized)
    } else {
        None
    }
}

/// The registry after a successful deletion: the one item with key `id`
/// leaves the store; ids are not renumbered and `next_id` does not move, so
/// the freed key is never reused.
pub open spec fn with_deleted(r: RegistryView, id: u32) -> RegistryView {
    RegistryView { items: r.items.remove(item_index_of(r.items, id)), ..r }
}

/// The flat registry.
pub struct Registry {
    items: Vec<Product>,
    next_id: u32,
}

impl View for Registry {
    type V = RegistryView;

    closed spec fn view(&self) -> RegistryView {
        RegistryView { items: self.items.deep_view(), next_id: self.next_id }
    }
}

impl Registry {
    /// Well-formedness: keys are strictly increasing in creation order (hence
    /// unique) and all below `next_id`.
    pub closed spec fn wf(&self) -> bool {
        &&& forall|i: int, j: int|
            0 <= i < j < self@.items.len() ==> self@.items[i].id < self@.items[j].id
        &&& forall|i: int| 0 <= i < self@.items.len() ==> (#[trigger] self@.items[i]).id
            < self@.next_id
    }

    /// Creates an empty registry; the first item will get key 0.
    pub fn new() -> (r: Registry)
        ensures
            r.wf(),
            r@.items == Seq::<ProductView>::empty(),
            r@.next_id == 0,
    {
        let r = Registry { items: Vec::new(), next_id: 0 };
        proof {
            assert(r@.items =~= Seq::<ProductView>::empty());
        }
        r
    }

    /// Creates an item owned by `caller` and returns it, with the key the
    /// store assigned. The key space is bounded by the machine word; the host
    /// must stop creating before it is exhausted.
    pub fn create_product(
        &mut self,
        caller: String,
        name: String,
        price: u128,
        description: String,
        image: String,
    ) -> (p: Product)
        requires
            old(self).wf(),
            old(self)@.next_id < u32::MAX,
        ensures
            final(self).wf(),
            p@ == (ProductView {
                id: old(self)@.next_id,
                owner: caller@,
                name: name@,
                price,
                description: description@,
                image: image@,
            }),
            final(self)@.items == old(self)@.items.push(p@),
            final(self)@.next_id == old(self)@.next_id + 1,
    {
        let product = Product {
            id: self.next_id,
            owner: caller,
            name,
            price,
            description,
            image,
        };
        let result = product.clone();
        self.items.push(product);
        self.next_id = self.next_id + 1;
        proof {
            assert(self.items.deep_view() =~= old(self).items.deep_view().push(result@));
            assert forall|i: int, j: int|
                0 <= i < j < self@.items.len() implies self@.items[i].id < self@.items[j].id by {
                if j == self@.items.len() - 1 {
                    assert(self@.items[i] == old(self)@.items[i]);
                    assert(old(self)@.items[i].id < old(self)@.next_id);
                }
            }
            assert forall|i: int| 0 <= i < self@.items.len() implies (#[trigger] self@.items[i]).id
                < self@.next_id by {
                if i < self@.items.len() - 1 {
                    assert(self@.items[i] == old(self)@.items[i]);
                }
            }
        }
        result
    }

    /// Position of the item with key `id`, if live.
    fn find_item_index(&self, id: u32) -> (r: Option<usize>)
        ensures
            match r {
                Some(i) => i < self.items.len() && self@.items[i as int].id == id,
                None => !has_item(self@.items, id),
            },
    {
        let n = self.items.len();
        for i in 0..n
            invariant
                n == self.items.len(),
                forall|j: int| 0 <= j < i ==> self@.items[j].id != id,
        {
            if self.items[i].id == id {
                return Some(i);
            }
        }
        None
    }

    /// Returns the item with key `id`, or `NotFound`.
    pub fn get_product(&self, id: u32) -> (r: Result<Product, Error>)
        requires
            self.wf(),
        ensures
            match r {
                Ok(p) => has_item(self@.items, id) && p@ == item_of(self@.items, id),
                Err(e) => e == Error::NotFound && !has_item(self@.items, id),
            },
    {
        match self.find_item_index(id) {
            Some(i) => {
                proof {
                    let w = item_index_of(self@.items, id);
                    assert(0 <= w < self@.items.len() && self@.items[w].id == id);
                    assert(w == i);
                }
                Ok(self.items[i].clone())
            },
            None => Err(Error::NotFound),
        }
    }

    /// Deletes the item with key `id`. Only its owner may: any other caller
    /// is refused with `Unauthorized` and the item stays retrievable. The
    /// removal takes the item out of the canonical store atomically; its key
    /// is never handed out again.
    pub fn delete_product(&mut self, caller: String, id: u32) -> (r: Result<(), Error>)
        requires
            old(self).wf(),
        ensures
            final(self).wf(),
            match r {
                Ok(_) => delete_error(old(self)@, caller@, id) is None && final(self)@
                    == with_deleted(old(self)@, id),
                Err(e) => Some(e) == delete_error(old(self)@, caller@, id) && *final(self)
                    == *old(self),
            },
    {
        let i = match self.find_item_index(id) {
            Some(i) => i,
            None => {
                return Err(Error::NotFound);
            },
        };
        proof {
            let w = item_index_of(self@.items, id);
            assert(0 <= w < self@.items.len() && self@.items[w].id == id);
            assert(w == i);
        }
        if !(self.items[i].owner == caller) {
            return Err(Error::Unauthorized);
        }
        self.items.remove(i);
        proof {
            assert(self.items.deep_view() =~= old(self).items.deep_view().remove(i as int));
            assert forall|a: int, b: int|
                0 <= a < b < self@.items.len() implies self@.items[a].id < self@.items[b].id by {
                let prev = old(self).items.deep_view();
                assert(self@.items[a] == (if a < i as int {
                    prev[a]
                } else {
                    prev[a + 1]
                }));
                assert(self@.items[b] == (if b < i as int {
                    prev[b]
                } else {
                    prev[b + 1]
                }));
            }
        }
        Ok(())
    }

    /// Returns every live item, in creation order.
    pub fn list_products(&self) -> (r: Vec<Product>)
        ensures
            r.deep_view() == self@.items,
    {
        let mut out: Vec<Product> = Vec::new();
        let n = self.items.len();
        for i in 0..n
            invariant
                n == self.items.len(),
                out@.len() == i as int,
                out.deep_view() =~= self@.items.subrange(0, i as int),
        {
            out.push(self.items[i].clone());
            proof {
                assert(out.deep_view() =~= self@.items.subrange(0, i as int + 1));
            }
        }
        proof {
            assert(out.deep_view() =~= self@.items);
        }
        out
    }
}

} // verus!
