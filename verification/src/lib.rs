//! A catalog and settlement engine for a small marketplace.
//!
//! The engine keeps canonical records of shops and their products, maintains
//! a denormalized by-owner index in sync with the canonical store, and settles
//! purchases: it validates the attached payment against the listed price,
//! debits supply, and produces an audit record together with the transfer
//! instruction for the host to carry out. The host (an unverified shell)
//! supplies caller identity and the attached payment with each call and
//! performs the actual value transfer and log append.

use vstd::prelude::*;

pub mod events;
pub mod registry;

use events::{
    EventLog, EventLogVariant, EventLogVariantView, EventLogView, PurchaseProduct,
    PurchaseProductView,
};

verus! {

/// The error taxonomy of the engine. Every failed call leaves the store
/// unchanged.
#[derive(Clone, Copy, Debug, PartialEq, Eq, Structural)]
pub enum Error {
    /// The entity looked up does not exist.
    NotFound,
    /// The caller does not own the entity it tries to change.
    Unauthorized,
    /// A unique key (shop owner, product id) is already taken.
    AlreadyExists,
    /// The attached payment differs from the listed price.
    PriceMismatch,
    /// The product's supply is exhausted.
    OutOfStock,
    /// The escrow balance does not cover the listed price.
    InsufficientFunds,
}

/// A sellable item, owned by the shop of `owner`.
#[derive(Debug)]
pub struct Product {
    /// Caller-supplied identifier, globally unique in the store.
    pub product_id: String,
    pub name: String,
    /// Units still available; a settlement debits exactly one.
    pub total_supply: u64,
    /// Listed price; a settlement must attach exactly this amount.
    pub price: u128,
    pub desc: String,
    /// Account of the owning shop.
    pub owner: String,
}

/// A seller's shop. One shop per owner account.
#[derive(Debug)]
pub struct Shop {
    pub owner: String,
    pub name: String,
    pub desc: String,
    /// Number of products ever created in this shop.
    pub total_product: u64,
}

/// Mathematical image of a [`Product`].
#[verifier::ext_equal]
pub struct ProductView {
    pub product_id: Seq<char>,
    pub name: Seq<char>,
    pub total_supply: u64,
    pub price: u128,
    pub desc: Seq<char>,
    pub owner: Seq<char>,
}

/// Mathematical image of a [`Shop`].
#[verifier::ext_equal]
pub struct ShopView {
    pub owner: Seq<char>,
    pub name: Seq<char>,
    pub desc: Seq<char>,
    pub total_product: u64,
}

impl View for Product {
    type V = ProductView;

    open spec fn view(&self) -> ProductView {
        ProductView {
            product_id: self.product_id@,
            name: self.name@,
            total_supply: self.total_supply,
            price: self.price,
            desc: self.desc@,
            owner: self.owner@,
        }
    }
}

impl DeepView for Product {
    type V = ProductView;

    open spec fn deep_view(&self) -> ProductView {
        self@
    }
}

impl Clone for Product {
    fn clone(&self) -> (res: Self)
        ensures
            res == *self,
    {
        Product {
            product_id: self.product_id.clone(),
            name: self.name.clone(),
            total_supply: self.total_supply,
            price: self.price,
            desc: self.desc.clone(),
            owner: self.owner.clone(),
        }
    }
}

impl View for Shop {
    type V = ShopView;

    open spec fn view(&self) -> ShopView {
        ShopView {
            owner: self.owner@,
            name: self.name@,
            desc: self.desc@,
            total_product: self.total_product,
        }
    }
}

impl DeepView for Shop {
    type V = ShopView;

    open spec fn deep_view(&self) -> ShopView {
        self@
    }
}

impl Clone for Shop {
    fn clone(&self) -> (res: Self)
        ensures
            res == *self,
    {
        Shop {
            owner: self.owner.clone(),
            name: self.name.clone(),
            desc: self.desc.clone(),
            total_product: self.total_product,
        }
    }
}

/// The outcome of a successful settlement: the transfer the host must issue
/// (the engine cannot observe its completion, so the debit already stands)
/// and the audit record the host must append to the external log.
#[derive(Debug)]
pub struct PaymentReceipt {
    /// Account the validated amount is owed to.
    pub beneficiary: String,
    /// The validated amount, equal to the listed price.
    pub amount: u128,
    /// The audit record of this purchase.
    pub record: EventLog,
}

/// One slot of the denormalized by-owner index: copies of all products whose
/// `owner` field equals `owner`, in creation order.
struct OwnerProducts {
    owner: String,
    items: Vec<Product>,
}

/// Mathematical image of the whole store. The by-owner index is not part of
/// the view: the well-formedness invariant pins it to be exactly the filter
/// of the canonical product list, so it carries no information of its own.
#[verifier::ext_equal]
pub struct ContractView {
    /// Beneficiary account of every settlement transfer.
    pub platform_name: Seq<char>,
    /// Shops in creation order; the position is the sequential enumeration key.
    pub shops: Seq<ShopView>,
    /// Products in creation order; the position is the sequential enumeration key.
    pub products: Seq<ProductView>,
}

/// True when no two shops share an owner account.
pub open spec fn shop_owners_unique(shops: Seq<ShopView>) -> bool {
    forall|i: int, j: int| 0 <= i < j < shops.len() ==> shops[i].owner != shops[j].owner
}

/// True when no two products share a product id.
pub open spec fn product_ids_unique(ps: Seq<ProductView>) -> bool {
    forall|i: int, j: int|
        0 <= i < j < ps.len() ==> ps[i].product_id != ps[j].product_id
}

/// True when `owner` owns a shop.
pub open spec fn has_shop(shops: Seq<ShopView>, owner: Seq<char>) -> bool {
    exists|i: int| 0 <= i < shops.len() && shops[i].owner == owner
}

/// Position of `owner`'s shop (meaningful under `has_shop` and uniqueness).
pub open spec fn shop_index_of(shops: Seq<ShopView>, owner: Seq<char>) -> int {
    choose|i: int| 0 <= i < shops.len() && shops[i].owner == owner
}

/// The shop of `owner` (meaningful under `has_shop` and uniqueness).
pub open spec fn shop_of(shops: Seq<ShopView>, owner: Seq<char>) -> ShopView {
    shops[shop_index_of(shops, owner)]
}

/// True when a product with id `id` exists.
pub open spec fn has_product(ps: Seq<ProductView>, id: Seq<char>) -> bool {
    exists|i: int| 0 <= i < ps.len() && ps[i].product_id == id
}

/// Position of the product with id `id` (meaningful under `has_product` and
/// uniqueness).
pub open spec fn product_index_of(ps: Seq<ProductView>, id: Seq<char>) -> int {
    choose|i: int| 0 <= i < ps.len() && ps[i].product_id == id
}

/// The product with id `id` (meaningful under `has_product` and uniqueness).
pub open spec fn product_of(ps: Seq<ProductView>, id: Seq<char>) -> ProductView {
    ps[product_index_of(ps, id)]
}

/// All products of `owner`, in creation order.
pub open spec fn products_of_owner(ps: Seq<ProductView>, owner: Seq<char>) -> Seq<ProductView> {
    ps.filter(|p: ProductView| p.owner == owner)
}

/// The multi-index store and settlement engine.
///
/// The canonical records live in `shops` and `products`; `owner_products` is
/// the denormalized by-owner index that every mutation keeps in sync (see
/// [`Contract::wf`]).
pub struct Contract {
    platform_name: String,
    shops: Vec<Shop>,
    products: Vec<Product>,
    owner_products: Vec<OwnerProducts>,
}

impl View for Contract {
    type V = ContractView;

    closed spec fn view(&self) -> ContractView {
        ContractView {
            platform_name: self.platform_name@,
            shops: self.shops.deep_view(),
            products: self.products.deep_view(),
        }
    }
}

impl Contract {
    /// Well-formedness: the store's invariant. Established by [`Contract::init`]
    /// and preserved by every operation.
    ///
    /// - shop owners and product ids are unique keys;
    /// - the by-owner index has one slot per indexed owner, and each slot
    ///   holds exactly the products whose `owner` field equals its key, in
    ///   creation order;
    /// - every product's owner is indexed;
    /// - every shop's product count is bounded by the store size (products
    ///   are never removed, so a count can never outrun the store).
    pub closed spec fn wf(&self) -> bool {
        &&& shop_owners_unique(self@.shops)
        &&& product_ids_unique(self@.products)
        &&& owner_slots_unique(self.owner_products@)
        &&& forall|k: int|
            0 <= k < self.owner_products@.len()
                ==> (#[trigger] self.owner_products@[k].items).deep_view()
                    == products_of_owner(self@.products, self.owner_products@[k].owner@)
        &&& forall|i: int|
            0 <= i < self@.products.len()
                ==> has_owner_slot(self.owner_products@, (#[trigger] self@.products[i]).owner)
        &&& forall|i: int|
            0 <= i < self@.shops.len()
                ==> (#[trigger] self@.shops[i]).total_product <= self@.products.len()
    }

    /// Creates an empty store whose settlements pay out to `platform_name`.
    pub fn init(platform_name: String) -> (c: Contract)
        ensures
            c.wf(),
            c@.platform_name == platform_name@,
            c@.shops == Seq::<ShopView>::empty(),
            c@.products == Seq::<ProductView>::empty(),
    {
        let c = Contract {
            platform_name,
            shops: Vec::new(),
            products: Vec::new(),
            owner_products: Vec::new(),
        };
        proof {
            assert(c@.shops =~= Seq::<ShopView>::empty());
            assert(c@.products =~= Seq::<ProductView>::empty());
        }
        c
    }

    /// Position of `owner`'s shop in the canonical list, if any.
    fn find_shop_index(&self, owner: &String) -> (r: Option<usize>)
        ensures
            match r {
                Some(i) => i < self.shops.len() && self@.shops[i as int].owner == owner@,
                None => !has_shop(self@.shops, owner@),
            },
    {
        let n = self.shops.len();
        for i in 0..n
            invariant
                n == self.shops.len(),
                forall|j: int| 0 <= j < i ==> self@.shops[j].owner != owner@,
        {
            if self.shops[i].owner == *owner {
                return Some(i);
            }
        }
        None
    }

    /// Creates a shop for `caller`. Fails with `AlreadyExists` when `caller`
    /// already owns one; a failed call leaves the store unchanged.
    pub fn new_shop(&mut self, caller: String, name: String, desc: String) -> (r: Result<
        Shop,
        Error,
    >)
        requires
            old(self).wf(),
        ensures
            final(self).wf(),
            match r {
                Ok(shop) => !has_shop(old(self)@.shops, caller@) && final(self)@ == with_new_shop(
                    old(self)@,
                    caller@,
                    name@,
                    desc@,
                ) && shop@ == (ShopView {
                    owner: caller@,
                    name: name@,
                    desc: desc@,
                    total_product: 0,
                }),
                Err(e) => e == Error::AlreadyExists && has_shop(old(self)@.shops, caller@)
                    && *final(self) == *old(self),
            },
    {
        if self.find_shop_index(&caller).is_some() {
            return Err(Error::AlreadyExists);
        }
        let shop = Shop { owner: caller, name, desc, total_product: 0 };
        let result = shop.clone();
        self.shops.push(shop);
        proof {
            assert(self@.shops =~= old(self)@.shops.push(result@));
            assert(self@ =~= with_new_shop(old(self)@, result@.owner, result@.name, result@.desc));
            assert forall|i: int| 0 <= i < self@.products.len() implies has_owner_slot(
                self.owner_products@,
                (#[trigger] self@.products[i]).owner,
            ) by {
                assert(self@.products[i] == old(self)@.products[i]);
            }
        }
        Ok(result)
    }

    /// Creates a product in `caller`'s shop. Fails with `Unauthorized` when
    /// `caller` owns no shop and with `AlreadyExists` when `product_id` is
    /// already taken; a failed call leaves the store unchanged.
    pub fn new_product(
        &mut self,
        caller: String,
        product_id: String,
        name: String,
        total_supply: u64,
        price: u128,
        desc: String,
    ) -> (r: Result<Product, Error>)
        requires
            old(self).wf(),
        ensures
            final(self).wf(),
            match r {
                Ok(p) => new_product_error(old(self)@, caller@, product_id@) is None
                    && final(self)@ == with_new_product(
                    old(self)@,
                    caller@,
                    product_id@,
                    name@,
                    total_supply,
                    price,
                    desc@,
                ) && p@ == (ProductView {
                    product_id: product_id@,
                    name: name@,
                    total_supply,
                    price,
                    desc: desc@,
                    owner: caller@,
                }),
                Err(e) => Some(e) == new_product_error(old(self)@, caller@, product_id@)
                    && *final(self) == *old(self),
            },
    {
        let shop_idx = match self.find_shop_index(&caller) {
            Some(k) => k,
            None => {
                return Err(Error::Unauthorized);
            },
        };
        if self.find_product_index(&product_id).is_some() {
            return Err(Error::AlreadyExists);
        }
        let product = Product { product_id, name, total_supply, price, desc, owner: caller };
        let result = product.clone();
        proof {
            assert(shop_index_of(old(self)@.shops, result@.owner) == shop_idx as int) by {
                let w = shop_index_of(old(self)@.shops, result@.owner);
                assert(old(self)@.shops[shop_idx as int].owner == result@.owner);
                assert(0 <= w < old(self)@.shops.len() && old(self)@.shops[w].owner
                    == result@.owner);
            }
        }
        self.products.push(product);
        proof {
            assert(self.products.deep_view() =~= old(self).products.deep_view().push(result@));
        }
        let n_after = self.products.len();
        let count = self.shops[shop_idx].total_product;
        proof {
            assert(count <= old(self)@.products.len());
            assert(n_after == old(self)@.products.len() + 1);
            assert(count < u64::MAX);
        }
        self.shops[shop_idx].total_product = count + 1;
        proof {
            assert(self.shops.deep_view() =~= old(self)@.shops.update(
                shop_idx as int,
                ShopView {
                    total_product: (old(self)@.shops[shop_idx as int].total_product + 1) as u64,
                    ..old(self)@.shops[shop_idx as int]
                },
            ));
        }
        self.sync_owner_entry(&result.owner);
        proof {
            self.lemma_new_product_wf(*old(self), result@, shop_idx as int);
            assert(self@ =~= with_new_product(
                old(self)@,
                result@.owner,
                result@.product_id,
                result@.name,
                total_supply,
                price,
                result@.desc,
            ));
        }
        Ok(result)
    }

    /// After an in-place product update that keeps id and owner, followed by
    /// a resync of the owner's index slot, the invariant holds again.
    proof fn lemma_update_product_wf(&self, prev: Contract, i: int, p: ProductView)
        requires
            prev.wf(),
            0 <= i < prev@.products.len(),
            p.product_id == prev@.products[i].product_id,
            p.owner == prev@.products[i].owner,
            self@.products == prev@.products.update(i, p),
            self@.shops == prev@.shops,
            slots_resynced(prev.owner_products@, self.owner_products@, p.owner),
            has_owner_slot(self.owner_products@, p.owner),
            forall|k: int|
                0 <= k < self.owner_products@.len()
                    && (#[trigger] self.owner_products@[k]).owner@ == p.owner
                    ==> self.owner_products@[k].items.deep_view()
                        == products_of_owner(self@.products, p.owner),
        ensures
            self.wf(),
    {
        lemma_slots_resynced_unique(prev.owner_products@, self.owner_products@, p.owner);
        assert forall|a: int, b: int|
            0 <= a < b < self@.products.len() implies (#[trigger] self@.products[a]).product_id
            != (#[trigger] self@.products[b]).product_id by {
            assert(self@.products[a].product_id == prev@.products[a].product_id);
            assert(self@.products[b].product_id == prev@.products[b].product_id);
        }
        assert forall|k: int|
            0 <= k < self.owner_products@.len() implies (#[trigger] self.owner_products@[k]).items.deep_view()
            == products_of_owner(self@.products, self.owner_products@[k].owner@) by {
            let o = self.owner_products@[k].owner@;
            if o == p.owner {
            } else {
                lemma_products_of_owner_update_other(prev@.products, i, p, o);
                assert(k < prev.owner_products@.len());
                assert(self.owner_products@[k] == prev.owner_products@[k]);
            }
        }
        assert forall|j: int| 0 <= j < self@.products.len() implies has_owner_slot(
            self.owner_products@,
            (#[trigger] self@.products[j]).owner,
        ) by {
            assert(self@.products[j].owner == prev@.products[j].owner);
            assert(has_owner_slot(prev.owner_products@, prev@.products[j].owner));
            let w = choose|k: int|
                0 <= k < prev.owner_products@.len() && prev.owner_products@[k].owner@
                    == prev@.products[j].owner;
            assert(self.owner_products@[w].owner == prev.owner_products@[w].owner);
        }
    }

    /// After the three mutation steps of a product creation, the invariant
    /// holds again.
    proof fn lemma_new_product_wf(&self, prev: Contract, p: ProductView, shop_idx: int)
        requires
            prev.wf(),
            0 <= shop_idx < prev@.shops.len(),
            prev@.shops[shop_idx].owner == p.owner,
            !has_product(prev@.products, p.product_id),
            self@.products == prev@.products.push(p),
            self@.shops == prev@.shops.update(
                shop_idx,
                ShopView {
                    total_product: (prev@.shops[shop_idx].total_product + 1) as u64,
                    ..prev@.shops[shop_idx]
                },
            ),
            prev@.shops[shop_idx].total_product + 1 <= self@.products.len(),
            // what sync_owner_entry established for the new product's owner:
            slots_resynced(prev.owner_products@, self.owner_products@, p.owner),
            has_owner_slot(self.owner_products@, p.owner),
            forall|k: int|
                0 <= k < self.owner_products@.len()
                    && (#[trigger] self.owner_products@[k]).owner@ == p.owner
                    ==> self.owner_products@[k].items.deep_view()
                        == products_of_owner(self@.products, p.owner),
        ensures
            self.wf(),
    {
        lemma_slots_resynced_unique(prev.owner_products@, self.owner_products@, p.owner);
        assert forall|i: int| 0 <= i < self@.shops.len() implies (#[trigger] self@.shops[i]).owner
            == prev@.shops[i].owner by {}
        assert(shop_owners_unique(self@.shops));
        assert forall|i: int| 0 <= i < self@.shops.len() implies (#[trigger] self@.shops[i]).total_product
            <= self@.products.len() by {
            if i != shop_idx {
                assert(self@.shops[i] == prev@.shops[i]);
                assert(prev@.shops[i].total_product <= prev@.products.len());
            }
        }
        assert forall|i: int, j: int|
            0 <= i < j < self@.products.len() implies (#[trigger] self@.products[i]).product_id
            != (#[trigger] self@.products[j]).product_id by {
            if j == self@.products.len() - 1 {
                assert(self@.products[i] == prev@.products[i]);
            }
        }
        assert forall|k: int|
            0 <= k < self.owner_products@.len() implies (#[trigger] self.owner_products@[k]).items.deep_view()
            == products_of_owner(self@.products, self.owner_products@[k].owner@) by {
            let o = self.owner_products@[k].owner@;
            if o == p.owner {
            } else {
                lemma_products_of_owner_push(prev@.products, p, o);
                assert(k < prev.owner_products@.len());
                assert(self.owner_products@[k] == prev.owner_products@[k]);
            }
        }
        assert forall|i: int| 0 <= i < self@.products.len() implies has_owner_slot(
            self.owner_products@,
            (#[trigger] self@.products[i]).owner,
        ) by {
            if i < prev@.products.len() {
                assert(has_owner_slot(prev.owner_products@, prev@.products[i].owner));
                let w = choose|k: int|
                    0 <= k < prev.owner_products@.len() && prev.owner_products@[k].owner@
                        == prev@.products[i].owner;
                assert(self.owner_products@[w].owner == prev.owner_products@[w].owner);
            }
        }
    }

    /// Settles a purchase of one unit of `product_id` against the attached
    /// payment: validates the exact price match, debits one unit of supply,
    /// and returns the transfer instruction and audit record for the host.
    /// Validation failures (`NotFound`, `PriceMismatch`, `OutOfStock`) leave
    /// the store untouched — no partial debit.
    pub fn payment(&mut self, product_id: String, attached_amount: u128) -> (r: Result<
        PaymentReceipt,
        Error,
    >)
        requires
            old(self).wf(),
        ensures
            final(self).wf(),
            match r {
                Ok(receipt) => settlement_error(old(self)@, product_id@, attached_amount) is None
                    && final(self)@ == with_settled(old(self)@, product_id@)
                    && receipt.beneficiary@ == old(self)@.platform_name && receipt.amount
                    == product_of(old(self)@.products, product_id@).price && receipt.record@
                    == purchase_event(product_of(old(self)@.products, product_id@)),
                Err(e) => Some(e) == settlement_error(old(self)@, product_id@, attached_amount)
                    && *final(self) == *old(self),
            },
    {
        let i = match self.find_product_index(&product_id) {
            Some(i) => i,
            None => {
                return Err(Error::NotFound);
            },
        };
        proof {
            let w = product_index_of(old(self)@.products, product_id@);
            assert(0 <= w < old(self)@.products.len() && old(self)@.products[w].product_id
                == product_id@);
            assert(w == i);
        }
        let price = self.products[i].price;
        if price != attached_amount {
            return Err(Error::PriceMismatch);
        }
        let supply = self.products[i].total_supply;
        if supply == 0 {
            return Err(Error::OutOfStock);
        }
        let owner_id = self.products[i].product_id.clone();
        let product_info = self.products[i].desc.clone();
        let owner = self.products[i].owner.clone();
        self.products[i].total_supply = supply - 1;
        proof {
            let p0 = old(self)@.products[i as int];
            assert(self.products.deep_view() =~= old(self)@.products.update(
                i as int,
                ProductView { total_supply: (p0.total_supply - 1) as u64, ..p0 },
            ));
        }
        self.sync_owner_entry(&owner);
        proof {
            let p0 = old(self)@.products[i as int];
            self.lemma_update_product_wf(
                *old(self),
                i as int,
                ProductView { total_supply: (p0.total_supply - 1) as u64, ..p0 },
            );
            assert(self@ =~= with_settled(old(self)@, product_id@));
        }
        let record = EventLog {
            standard: String::from_str("e-commerce-1.0.0"),
            event: EventLogVariant::Purchase(
                vec![PurchaseProduct { owner_id, product_info, price, memo: None }],
            ),
        };
        proof {
            assert(record@ =~~= purchase_event(product_of(old(self)@.products, product_id@)));
        }
        let beneficiary = self.platform_name.clone();
        Ok(PaymentReceipt { beneficiary, amount: price, record })
    }

    /// Settles a purchase reported through a fungible-token transfer
    /// callback: the transferred `amount` is the attached payment. Same
    /// validation and debit as [`Contract::payment`]; only the audit record
    /// is produced, the token transfer has already happened on the host side.
    pub fn ft_on_transfer(
        &mut self,
        sender_id: String,
        amount: u128,
        msg: String,
        product_id: String,
    ) -> (r: Result<EventLog, Error>)
        requires
            old(self).wf(),
        ensures
            final(self).wf(),
            match r {
                Ok(record) => settlement_error(old(self)@, product_id@, amount) is None
                    && final(self)@ == with_settled(old(self)@, product_id@)
                    && record@ == purchase_event(product_of(old(self)@.products, product_id@)),
                Err(e) => Some(e) == settlement_error(old(self)@, product_id@, amount)
                    && *final(self) == *old(self),
            },
    {
        // The settlement is keyed on the product alone; who sent the tokens
        // and with what message is the host's concern, not the store's.
        let _ = sender_id;
        let _ = msg;
        match self.payment(product_id, amount) {
            Ok(receipt) => Ok(receipt.record),
            Err(e) => Err(e),
        }
    }

    /// Settles a resale purchase of `product_id`: the secondary-market flow.
    /// Validates the exact price match and that the escrow `account_balance`
    /// covers the price, then reassigns the product to `caller` — the supply
    /// history stays with the listing, no unit is debited. Returns the
    /// transfer instruction and audit record for the host. A failed
    /// validation leaves the store untouched.
    pub fn payment_product(
        &mut self,
        caller: String,
        product_id: String,
        attached_amount: u128,
        account_balance: u128,
    ) -> (r: Result<PaymentReceipt, Error>)
        requires
            old(self).wf(),
        ensures
            final(self).wf(),
            match r {
                Ok(receipt) => payment_product_error(
                    old(self)@,
                    product_id@,
                    attached_amount,
                    account_balance,
                ) is None && final(self)@ == with_owner_reassigned(
                    old(self)@,
                    product_id@,
                    caller@,
                ) && receipt.beneficiary@ == old(self)@.platform_name && receipt.amount
                    == product_of(old(self)@.products, product_id@).price && receipt.record@
                    == purchase_event(product_of(old(self)@.products, product_id@)),
                Err(e) => Some(e) == payment_product_error(
                    old(self)@,
                    product_id@,
                    attached_amount,
                    account_balance,
                ) && *final(self) == *old(self),
            },
    {
        let i = match self.find_product_index(&product_id) {
            Some(i) => i,
            None => {
                return Err(Error::NotFound);
            },
        };
        proof {
            let w = product_index_of(old(self)@.products, product_id@);
            assert(0 <= w < old(self)@.products.len() && old(self)@.products[w].product_id
                == product_id@);
            assert(w == i);
        }
        let price = self.products[i].price;
        if price != attached_amount {
            return Err(Error::PriceMismatch);
        }
        if account_balance < price {
            return Err(Error::InsufficientFunds);
        }
        let owner_id = self.products[i].product_id.clone();
        let product_info = self.products[i].desc.clone();
        let prior_owner = self.products[i].owner.clone();
        self.products[i].owner = caller.clone();
        proof {
            let p0 = old(self)@.products[i as int];
            assert(self.products.deep_view() =~= old(self)@.products.update(
                i as int,
                ProductView { owner: caller@, ..p0 },
            ));
        }
        self.sync_owner_entry(&prior_owner);
        let ghost mid = *self;
        self.sync_owner_entry(&caller);
        proof {
            let p0 = old(self)@.products[i as int];
            self.lemma_reassign_product_wf(
                *old(self),
                mid,
                i as int,
                ProductView { owner: caller@, ..p0 },
                prior_owner@,
            );
            assert(self@ =~= with_owner_reassigned(old(self)@, product_id@, caller@));
        }
        let record = EventLog {
            standard: String::from_str("e-commerce-1.0.0"),
            event: EventLogVariant::Purchase(
                vec![PurchaseProduct { owner_id, product_info, price, memo: None }],
            ),
        };
        proof {
            assert(record@ =~~= purchase_event(product_of(old(self)@.products, product_id@)));
        }
        let beneficiary = self.platform_name.clone();
        Ok(PaymentReceipt { beneficiary, amount: price, record })
    }

    /// After an in-place owner reassignment of one product, followed by a
    /// resync of both the prior and the new owner's index slot, the invariant
    /// holds again.
    proof fn lemma_reassign_product_wf(
        &self,
        prev: Contract,
        mid: Contract,
        i: int,
        p: ProductView,
        prior_owner: Seq<char>,
    )
        requires
            prev.wf(),
            0 <= i < prev@.products.len(),
            p.product_id == prev@.products[i].product_id,
            prev@.products[i].owner == prior_owner,
            self@.products == prev@.products.update(i, p),
            mid@.products == self@.products,
            self@.shops == prev@.shops,
            // what the first resync (of the prior owner) established:
            slots_resynced(prev.owner_products@, mid.owner_products@, prior_owner),
            has_owner_slot(mid.owner_products@, prior_owner),
            forall|k: int|
                0 <= k < mid.owner_products@.len()
                    && (#[trigger] mid.owner_products@[k]).owner@ == prior_owner
                    ==> mid.owner_products@[k].items.deep_view()
                        == products_of_owner(mid@.products, prior_owner),
            // and the second (of the new owner):
            slots_resynced(mid.owner_products@, self.owner_products@, p.owner),
            has_owner_slot(self.owner_products@, p.owner),
            forall|k: int|
                0 <= k < self.owner_products@.len()
                    && (#[trigger] self.owner_products@[k]).owner@ == p.owner
                    ==> self.owner_products@[k].items.deep_view()
                        == products_of_owner(self@.products, p.owner),
        ensures
            self.wf(),
    {
        lemma_slots_resynced_unique(prev.owner_products@, mid.owner_products@, prior_owner);
        lemma_slots_resynced_unique(mid.owner_products@, self.owner_products@, p.owner);
        assert forall|a: int, b: int|
            0 <= a < b < self@.products.len() implies (#[trigger] self@.products[a]).product_id
            != (#[trigger] self@.products[b]).product_id by {
            assert(self@.products[a].product_id == prev@.products[a].product_id);
            assert(self@.products[b].product_id == prev@.products[b].product_id);
        }
        assert forall|k: int|
            0 <= k < self.owner_products@.len() implies (#[trigger] self.owner_products@[k]).items.deep_view()
            == products_of_owner(self@.products, self.owner_products@[k].owner@) by {
            let o = self.owner_products@[k].owner@;
            if o == p.owner {
            } else {
                assert(k < mid.owner_products@.len());
                assert(self.owner_products@[k] == mid.owner_products@[k]);
                if o == prior_owner {
                } else {
                    assert(k < prev.owner_products@.len());
                    assert(mid.owner_products@[k] == prev.owner_products@[k]);
                    lemma_products_of_owner_update_other(prev@.products, i, p, o);
                }
            }
        }
        assert forall|j: int| 0 <= j < self@.products.len() implies has_owner_slot(
            self.owner_products@,
            (#[trigger] self@.products[j]).owner,
        ) by {
            if j == i {
            } else {
                assert(self@.products[j].owner == prev@.products[j].owner);
                assert(has_owner_slot(prev.owner_products@, prev@.products[j].owner));
                let w = choose|k: int|
                    0 <= k < prev.owner_products@.len() && prev.owner_products@[k].owner@
                        == prev@.products[j].owner;
                assert(mid.owner_products@[w].owner == prev.owner_products@[w].owner);
                assert(self.owner_products@[w].owner == mid.owner_products@[w].owner);
            }
        }
    }

    /// Reprices a product. Only the owner may do so: the caller's identity is
    /// checked against the product's owner before anything is written.
    pub fn update_price(&mut self, caller: String, new_price: u128, product_id: String) -> (r:
        Result<(), Error>)
        requires
            old(self).wf(),
        ensures
            final(self).wf(),
            match r {
                Ok(_) => update_price_error(old(self)@, caller@, product_id@) is None
                    && final(self)@ == with_price(old(self)@, product_id@, new_price),
                Err(e) => Some(e) == update_price_error(old(self)@, caller@, product_id@)
                    && *final(self) == *old(self),
            },
    {
        let i = match self.find_product_index(&product_id) {
            Some(i) => i,
            None => {
                return Err(Error::NotFound);
            },
        };
        proof {
            let w = product_index_of(old(self)@.products, product_id@);
            assert(0 <= w < old(self)@.products.len() && old(self)@.products[w].product_id
                == product_id@);
            assert(w == i);
        }
        if !(self.products[i].owner == caller) {
            return Err(Error::Unauthorized);
        }
        let owner = self.products[i].owner.clone();
        self.products[i].price = new_price;
        proof {
            let p0 = old(self)@.products[i as int];
            assert(self.products.deep_view() =~= old(self)@.products.update(
                i as int,
                ProductView { price: new_price, ..p0 },
            ));
        }
        self.sync_owner_entry(&owner);
        proof {
            let p0 = old(self)@.products[i as int];
            self.lemma_update_product_wf(
                *old(self),
                i as int,
                ProductView { price: new_price, ..p0 },
            );
            assert(self@ =~= with_price(old(self)@, product_id@, new_price));
        }
        Ok(())
    }

    /// Returns the shop owned by `owner`, or `NotFound`.
    pub fn get_shop_by_id(&self, owner: String) -> (r: Result<Shop, Error>)
        requires
            self.wf(),
        ensures
            match r {
                Ok(shop) => has_shop(self@.shops, owner@) && shop@ == shop_of(self@.shops, owner@),
                Err(e) => e == Error::NotFound && !has_shop(self@.shops, owner@),
            },
    {
        match self.find_shop_index(&owner) {
            Some(i) => {
                let shop = self.shops[i].clone();
                proof {
                    let w = shop_index_of(self@.shops, owner@);
                    assert(0 <= w < self@.shops.len() && self@.shops[w].owner == owner@);
                    assert(w == i);
                }
                Ok(shop)
            },
            None => Err(Error::NotFound),
        }
    }

    /// Position of the product with `product_id` in the canonical list, if any.
    fn find_product_index(&self, product_id: &String) -> (r: Option<usize>)
        ensures
            match r {
                Some(i) => i < self.products.len() && self@.products[i as int].product_id
                    == product_id@,
                None => !has_product(self@.products, product_id@),
            },
    {
        let n = self.products.len();
        for i in 0..n
            invariant
                n == self.products.len(),
                forall|j: int| 0 <= j < i ==> self@.products[j].product_id != product_id@,
        {
            if self.products[i].product_id == *product_id {
                return Some(i);
            }
        }
        None
    }

    /// Position of `owner`'s slot in the by-owner index, if any.
    fn find_owner_slot(&self, owner: &String) -> (r: Option<usize>)
        ensures
            match r {
                Some(k) => k < self.owner_products.len() && self.owner_products@[k as int].owner@
                    == owner@,
                None => !has_owner_slot(self.owner_products@, owner@),
            },
    {
        let n = self.owner_products.len();
        for k in 0..n
            invariant
                n == self.owner_products.len(),
                forall|j: int| 0 <= j < k ==> self.owner_products@[j].owner@ != owner@,
        {
            if self.owner_products[k].owner == *owner {
                return Some(k);
            }
        }
        None
    }

    /// Recomputes `owner`'s slot of the by-owner index from the canonical
    /// product list, creating the slot when absent. Every other slot is left
    /// untouched; no canonical record moves.
    fn sync_owner_entry(&mut self, owner: &String)
        requires
            owner_slots_unique(old(self).owner_products@),
        ensures
            final(self).platform_name == old(self).platform_name,
            final(self).shops == old(self).shops,
            final(self).products == old(self).products,
            old(self).owner_products@.len() <= final(self).owner_products@.len(),
            final(self).owner_products@.len() <= old(self).owner_products@.len() + 1,
            has_owner_slot(old(self).owner_products@, owner@)
                ==> final(self).owner_products@.len() == old(self).owner_products@.len(),
            forall|k: int|
                0 <= k < old(self).owner_products@.len()
                    ==> (#[trigger] final(self).owner_products@[k]).owner
                        == old(self).owner_products@[k].owner,
            forall|k: int|
                0 <= k < old(self).owner_products@.len()
                    && old(self).owner_products@[k].owner@ != owner@
                    ==> #[trigger] final(self).owner_products@[k]
                        == old(self).owner_products@[k],
            forall|k: int|
                old(self).owner_products@.len() <= k < final(self).owner_products@.len()
                    ==> (#[trigger] final(self).owner_products@[k]).owner@ == owner@,
            has_owner_slot(final(self).owner_products@, owner@),
            forall|k: int|
                0 <= k < final(self).owner_products@.len()
                    && (#[trigger] final(self).owner_products@[k]).owner@ == owner@
                    ==> final(self).owner_products@[k].items.deep_view()
                        == products_of_owner(final(self).products.deep_view(), owner@),
    {
        let items = collect_owner_products(&self.products, owner);
        match self.find_owner_slot(owner) {
            Some(k) => {
                self.owner_products[k].items = items;
                proof {
                    assert(self.owner_products@[k as int].owner@ == owner@);
                    assert(has_owner_slot(self.owner_products@, owner@));
                }
            },
            None => {
                self.owner_products.push(OwnerProducts { owner: owner.clone(), items });
                proof {
                    let last = self.owner_products@.len() - 1;
                    assert(self.owner_products@[last].owner@ == owner@);
                    assert(has_owner_slot(self.owner_products@, owner@));
                }
            },
        }
    }

    /// Returns the product with `product_id`, or `NotFound`.
    pub fn get_product_by_id(&self, product_id: String) -> (r: Result<Product, Error>)
        requires
            self.wf(),
        ensures
            match r {
                Ok(p) => has_product(self@.products, product_id@) && p@ == product_of(
                    self@.products,
                    product_id@,
                ),
                Err(e) => e == Error::NotFound && !has_product(self@.products, product_id@),
            },
    {
        match self.find_product_index(&product_id) {
            Some(i) => {
                let p = self.products[i].clone();
                proof {
                    let w = product_index_of(self@.products, product_id@);
                    assert(0 <= w < self@.products.len() && self@.products[w].product_id
                        == product_id@);
                    assert(w == i);
                }
                Ok(p)
            },
            None => Err(Error::NotFound),
        }
    }

    /// Returns every product, in creation order (the sequential enumeration).
    pub fn get_all_products(&self) -> (r: Vec<Product>)
        ensures
            r.deep_view() == self@.products,
    {
        clone_products(&self.products)
    }

    /// Returns every product of `owner`, in creation order: exactly the
    /// products whose `owner` field equals `owner`, served from the by-owner
    /// index.
    pub fn get_products_by_owner(&self, owner: String) -> (r: Vec<Product>)
        requires
            self.wf(),
        ensures
            r.deep_view() == products_of_owner(self@.products, owner@),
    {
        match self.find_owner_slot(&owner) {
            Some(k) => clone_products(&self.owner_products[k].items),
            None => {
                proof {
                    assert forall|i: int| 0 <= i < self@.products.len() implies (
                    #[trigger] self@.products[i]).owner != owner@ by {
                        if self@.products[i].owner == owner@ {
                            assert(has_owner_slot(self.owner_products@, self@.products[i].owner));
                        }
                    }
                    lemma_products_of_owner_empty(self@.products, owner@);
                }
                let empty: Vec<Product> = Vec::new();
                proof {
                    assert(empty.deep_view() =~= Seq::<ProductView>::empty());
                }
                empty
            },
        }
    }

    /// Returns every shop, in creation order (the sequential enumeration).
    pub fn get_all_shops(&self) -> (r: Vec<Shop>)
        ensures
            r.deep_view() == self@.shops,
    {
        let mut out: Vec<Shop> = Vec::new();
        let n = self.shops.len();
        for i in 0..n
            invariant
                n == self.shops.len(),
                out@.len() == i as int,
                out.deep_view() =~= self@.shops.subrange(0, i as int),
        {
            out.push(self.shops[i].clone());
            proof {
                assert(out.deep_view() =~= self@.shops.subrange(0, i as int + 1));
            }
        }
        proof {
            assert(out.deep_view() =~= self@.shops);
        }
        out
    }
}

/// True when the by-owner index has a slot for `owner`.
spec fn has_owner_slot(entries: Seq<OwnerProducts>, owner: Seq<char>) -> bool {
    exists|k: int| 0 <= k < entries.len() && entries[k].owner@ == owner
}

/// True when no two slots of the by-owner index share an owner.
spec fn owner_slots_unique(entries: Seq<OwnerProducts>) -> bool {
    forall|k: int, l: int| 0 <= k < l < entries.len() ==> entries[k].owner@ != entries[l].owner@
}

/// How a resync of `owner`'s slot relates the by-owner index before (`prev`)
/// and after (`cur`): slots keep their owners and positions, slots of other
/// owners are untouched, and at most one slot, for `owner`, is appended.
spec fn slots_resynced(
    prev: Seq<OwnerProducts>,
    cur: Seq<OwnerProducts>,
    owner: Seq<char>,
) -> bool {
    &&& owner_slots_unique(prev)
    &&& prev.len() <= cur.len() <= prev.len() + 1
    &&& (has_owner_slot(prev, owner) ==> cur.len() == prev.len())
    &&& forall|k: int| 0 <= k < prev.len() ==> (#[trigger] cur[k]).owner == prev[k].owner
    &&& forall|k: int|
        0 <= k < prev.len() && prev[k].owner@ != owner ==> #[trigger] cur[k] == prev[k]
    &&& forall|k: int| prev.len() <= k < cur.len() ==> (#[trigger] cur[k]).owner@ == owner
}

/// A resync keeps the slot owners unique.
proof fn lemma_slots_resynced_unique(
    prev: Seq<OwnerProducts>,
    cur: Seq<OwnerProducts>,
    owner: Seq<char>,
)
    requires
        slots_resynced(prev, cur, owner),
    ensures
        owner_slots_unique(cur),
{
    assert forall|k: int, l: int| 0 <= k < l < cur.len() implies cur[k].owner@
        != cur[l].owner@ by {
        if l < prev.len() {
        } else {
            assert(cur[l].owner@ == owner);
            assert(!has_owner_slot(prev, owner));
        }
    }
}

/// Appending a product extends its owner's filtered list by that product and
/// leaves every other owner's list unchanged.
pub proof fn lemma_products_of_owner_push(s: Seq<ProductView>, p: ProductView, owner: Seq<char>)
    ensures
        products_of_owner(s.push(p), owner) == (if p.owner == owner {
            products_of_owner(s, owner).push(p)
        } else {
            products_of_owner(s, owner)
        }),
{
    reveal(Seq::filter);
    assert(s.push(p).drop_last() =~= s);
    assert(s.push(p).last() == p);
}

/// An owner none of whose products occur in `s` has an empty filtered list.
pub proof fn lemma_products_of_owner_empty(s: Seq<ProductView>, owner: Seq<char>)
    requires
        forall|i: int| 0 <= i < s.len() ==> (#[trigger] s[i]).owner != owner,
    ensures
        products_of_owner(s, owner) == Seq::<ProductView>::empty(),
    decreases s.len(),
{
    reveal(Seq::filter);
    if s.len() == 0 {
        assert(s =~= Seq::<ProductView>::empty());
    } else {
        lemma_products_of_owner_empty(s.drop_last(), owner);
        assert(s.last() == s[s.len() - 1]);
    }
}

/// Replacing a product that does not belong to `owner` with one that does not
/// either leaves `owner`'s filtered list unchanged.
pub proof fn lemma_products_of_owner_update_other(
    s: Seq<ProductView>,
    i: int,
    p: ProductView,
    owner: Seq<char>,
)
    requires
        0 <= i < s.len(),
        s[i].owner != owner,
        p.owner != owner,
    ensures
        products_of_owner(s.update(i, p), owner) == products_of_owner(s, owner),
    decreases s.len(),
{
    reveal(Seq::filter);
    let t = s.update(i, p);
    if i == s.len() - 1 {
        assert(t.drop_last() =~= s.drop_last());
        assert(t.last() == p);
        assert(s.last() == s[i]);
    } else {
        assert(t.drop_last() =~= s.drop_last().update(i, p));
        lemma_products_of_owner_update_other(s.drop_last(), i, p, owner);
        assert(t.last() == s.last());
    }
}

/// Copies a product list. (Verified replacement for a derived `Clone`, whose
/// contract Verus would not know.)
fn clone_products(v: &Vec<Product>) -> (r: Vec<Product>)
    ensures
        r.deep_view() == v.deep_view(),
{
    let mut out: Vec<Product> = Vec::new();
    let n = v.len();
    for i in 0..n
        invariant
            n == v.len(),
            out@.len() == i as int,
            out.deep_view() =~= v.deep_view().subrange(0, i as int),
    {
        out.push(v[i].clone());
        proof {
            assert(out.deep_view() =~= v.deep_view().subrange(0, i as int + 1));
        }
    }
    proof {
        assert(out.deep_view() =~= v.deep_view());
    }
    out
}

/// Collects copies of all products of `owner`, in creation order.
fn collect_owner_products(products: &Vec<Product>, owner: &String) -> (r: Vec<Product>)
    ensures
        r.deep_view() == products_of_owner(products.deep_view(), owner@),
{
    let mut out: Vec<Product> = Vec::new();
    let n = products.len();
    proof {
        reveal(Seq::filter);
        assert(products.deep_view().subrange(0, 0) =~= Seq::<ProductView>::empty());
    }
    for i in 0..n
        invariant
            n == products.len(),
            out@.len() == products_of_owner(
                products.deep_view().subrange(0, i as int),
                owner@,
            ).len(),
            out.deep_view() =~= products_of_owner(
                products.deep_view().subrange(0, i as int),
                owner@,
            ),
    {
        proof {
            assert(products.deep_view().subrange(0, i as int + 1) =~= products.deep_view()
                .subrange(0, i as int)
                .push(products.deep_view()[i as int]));
            lemma_products_of_owner_push(
                products.deep_view().subrange(0, i as int),
                products.deep_view()[i as int],
                owner@,
            );
        }
        if products[i].owner == *owner {
            out.push(products[i].clone());
            proof {
                assert(out.deep_view() =~= products_of_owner(
                    products.deep_view().subrange(0, i as int + 1),
                    owner@,
                ));
            }
        } else {
            proof {
                assert(out.deep_view() =~= products_of_owner(
                    products.deep_view().subrange(0, i as int + 1),
                    owner@,
                ));
            }
        }
    }
    proof {
        assert(products.deep_view().subrange(0, n as int) =~= products.deep_view());
    }
    out
}

/// The store after a successful shop creation: the new shop, with no products
/// yet, is appended to the sequential shop list; nothing else moves.
pub open spec fn with_new_shop(
    c: ContractView,
    owner: Seq<char>,
    name: Seq<char>,
    desc: Seq<char>,
) -> ContractView {
    ContractView {
        shops: c.shops.push(ShopView { owner, name, desc, total_product: 0 }),
        ..c
    }
}

/// Why a product creation is refused, if it is: the caller must own a shop,
/// and the caller-supplied id must be new. A colliding id is rejected, never
/// silently overwritten.
pub open spec fn new_product_error(c: ContractView, caller: Seq<char>, id: Seq<char>) -> Option<
    Error,
> {
    if !has_shop(c.shops, caller) {
        Some(Error::Unauthorized)
    } else if has_product(c.products, id) {
        Some(Error::AlreadyExists)
    } else {
        None
    }
}

/// Why a settlement is refused, if it is. The price comparison is exact:
/// overpaying is refused like underpaying. A settlement of an exhausted
/// product is refused rather than wrapped below zero, and only after the
/// price check, so a mispriced call never reports stock.
pub open spec fn settlement_error(c: ContractView, id: Seq<char>, attached: u128) -> Option<
    Error,
> {
    if !has_product(c.products, id) {
        Some(Error::NotFound)
    } else if product_of(c.products, id).price != attached {
        Some(Error::PriceMismatch)
    } else if product_of(c.products, id).total_supply == 0 {
        Some(Error::OutOfStock)
    } else {
        None
    }
}

/// The store after a successful settlement: exactly one unit of the product
/// is debited; every other record and every index key is untouched.
pub open spec fn with_settled(c: ContractView, id: Seq<char>) -> ContractView {
    let i = product_index_of(c.products, id);
    let p = c.products[i];
    ContractView {
        products: c.products.update(
            i,
            ProductView { total_supply: (p.total_supply - 1) as u64, ..p },
        ),
        ..c
    }
}

/// Why an ownership-transfer settlement is refused, if it is: beyond the
/// exact price match, the store's own escrow balance must cover the price.
pub open spec fn payment_product_error(
    c: ContractView,
    id: Seq<char>,
    attached: u128,
    account_balance: u128,
) -> Option<Error> {
    if !has_product(c.products, id) {
        Some(Error::NotFound)
    } else if product_of(c.products, id).price != attached {
        Some(Error::PriceMismatch)
    } else if account_balance < product_of(c.products, id).price {
        Some(Error::InsufficientFunds)
    } else {
        None
    }
}

/// The store after a successful ownership-transfer settlement: the product
/// changes hands — only its `owner` field moves, the accumulated supply
/// stays with the listing — and everything else is untouched.
pub open spec fn with_owner_reassigned(
    c: ContractView,
    id: Seq<char>,
    new_owner: Seq<char>,
) -> ContractView {
    let i = product_index_of(c.products, id);
    let p = c.products[i];
    ContractView { products: c.products.update(i, ProductView { owner: new_owner, ..p }), ..c }
}

/// Why a price update is refused, if it is: only the product's owner may
/// reprice it.
pub open spec fn update_price_error(c: ContractView, caller: Seq<char>, id: Seq<char>) -> Option<
    Error,
> {
    if !has_product(c.products, id) {
        Some(Error::NotFound)
    } else if product_of(c.products, id).owner != caller {
        Some(Error::Unauthorized)
    } else {
        None
    }
}

/// The store after a successful price update.
pub open spec fn with_price(c: ContractView, id: Seq<char>, new_price: u128) -> ContractView {
    let i = product_index_of(c.products, id);
    let p = c.products[i];
    ContractView { products: c.products.update(i, ProductView { price: new_price, ..p }), ..c }
}

/// The audit record of a settled purchase of `p`: the versioned event the
/// host appends to the external log.
pub open spec fn purchase_event(p: ProductView) -> EventLogView {
    EventLogView {
        standard: "e-commerce-1.0.0"@,
        event: EventLogVariantView::Purchase(
            seq![
                PurchaseProductView {
                    owner_id: p.product_id,
                    product_info: p.desc,
                    price: p.price,
                    memo: None,
                },
            ],
        ),
    }
}

/// The index-soundness law: every product reachable through an owner's list
/// belongs to that owner. [`Contract::get_products_by_owner`] returns exactly
/// `products_of_owner`, so nothing a caller gets from an owner's list can
/// carry another owner's key.
pub proof fn lemma_owner_list_sound(ps: Seq<ProductView>, owner: Seq<char>)
    ensures
        forall|i: int|
            0 <= i < products_of_owner(ps, owner).len() ==> (#[trigger] products_of_owner(
                ps,
                owner,
            )[i]).owner == owner,
{
    assert forall|i: int| 0 <= i < products_of_owner(ps, owner).len() implies (
    #[trigger] products_of_owner(ps, owner)[i]).owner == owner by {
        ps.lemma_filter_pred(|p: ProductView| p.owner == owner, i);
    }
}

/// The store after `n` successive successful settlements of `id`.
pub open spec fn settle_n(c: ContractView, id: Seq<char>, n: nat) -> ContractView
    decreases n,
{
    if n == 0 {
        c
    } else {
        with_settled(settle_n(c, id, (n - 1) as nat), id)
    }
}

/// One settlement debits exactly one unit of the settled product and touches
/// nothing else: ids, owners, prices, the other products, the shops and the
/// beneficiary all stay.
pub proof fn lemma_with_settled_product(c: ContractView, id: Seq<char>)
    requires
        product_ids_unique(c.products),
        has_product(c.products, id),
    ensures
        product_ids_unique(with_settled(c, id).products),
        has_product(with_settled(c, id).products, id),
        with_settled(c, id).products.len() == c.products.len(),
        product_of(with_settled(c, id).products, id) == (ProductView {
            total_supply: (product_of(c.products, id).total_supply - 1) as u64,
            ..product_of(c.products, id)
        }),
        with_settled(c, id).shops == c.shops,
        with_settled(c, id).platform_name == c.platform_name,
{
    let i = product_index_of(c.products, id);
    assert(0 <= i < c.products.len() && c.products[i].product_id == id);
    let c2 = with_settled(c, id);
    assert forall|a: int, b: int|
        0 <= a < b < c2.products.len() implies (#[trigger] c2.products[a]).product_id
        != (#[trigger] c2.products[b]).product_id by {
        assert(c2.products[a].product_id == c.products[a].product_id);
        assert(c2.products[b].product_id == c.products[b].product_id);
    }
    assert(c2.products[i].product_id == id);
    let w = product_index_of(c2.products, id);
    assert(0 <= w < c2.products.len() && c2.products[w].product_id == id);
    assert(c2.products[w].product_id == c.products[w].product_id);
    assert(w == i);
}

/// The supply law: after `n` successful settlements of one product, its
/// supply is exactly the initial supply minus `n` — and `n` settlements
/// succeed precisely while the supply covers them, so the count can never go
/// below zero: the next attempt is refused with `OutOfStock`, not wrapped.
pub proof fn lemma_supply_after_settlements(c: ContractView, id: Seq<char>, n: nat)
    requires
        product_ids_unique(c.products),
        has_product(c.products, id),
        n <= product_of(c.products, id).total_supply,
    ensures
        product_ids_unique(settle_n(c, id, n).products),
        has_product(settle_n(c, id, n).products, id),
        product_of(settle_n(c, id, n).products, id) == (ProductView {
            total_supply: (product_of(c.products, id).total_supply - n) as u64,
            ..product_of(c.products, id)
        }),
        // every one of the n steps is a genuine success: the engine reports
        // no error for it at the listed price,
        forall|k: nat|
            k < n ==> settlement_error(
                settle_n(c, id, k),
                id,
                product_of(c.products, id).price,
            ) is None,
        // and one more settlement than the supply covers is refused.
        n == product_of(c.products, id).total_supply ==> settlement_error(
            settle_n(c, id, n),
            id,
            product_of(c.products, id).price,
        ) == Some(Error::OutOfStock),
    decreases n,
{
    if n == 0 {
    } else {
        lemma_supply_after_settlements(c, id, (n - 1) as nat);
        lemma_with_settled_product(settle_n(c, id, (n - 1) as nat), id);
        assert forall|k: nat| k < n implies settlement_error(
            settle_n(c, id, k),
            id,
            product_of(c.products, id).price,
        ) is None by {
            if k == n - 1 {
                assert(product_of(settle_n(c, id, k).products, id).total_supply
                    == product_of(c.products, id).total_supply - k);
            }
        }
    }
}

/// The duplicate-shop law: an owner account is a unique key. Once an owner
/// has a shop, a second creation for the same owner is refused with
/// `AlreadyExists`, and since a refused creation changes nothing, a later
/// query still returns the original record.
pub proof fn lemma_duplicate_shop_rejected(
    c: ContractView,
    owner: Seq<char>,
    name: Seq<char>,
    desc: Seq<char>,
)
    requires
        shop_owners_unique(c.shops),
        has_shop(c.shops, owner),
    ensures
        // the only shop the owner can ever get from this state is the one
        // already there: creating again cannot replace it, because creation
        // from this state is refused (see `Contract::new_shop`), and the
        // refused call leaves `shop_of` at the original record.
        shop_of(c.shops, owner).owner == owner,
        forall|i: int|
            0 <= i < c.shops.len() && (#[trigger] c.shops[i]).owner == owner ==> c.shops[i]
                == shop_of(c.shops, owner),
{
    let w = shop_index_of(c.shops, owner);
    assert(0 <= w < c.shops.len() && c.shops[w].owner == owner);
    assert forall|i: int|
        0 <= i < c.shops.len() && (#[trigger] c.shops[i]).owner == owner implies c.shops[i]
        == shop_of(c.shops, owner) by {
        assert(i == w);
    }
}

/// The visibility law: a newly created product is immediately reachable
/// through both lookups, exactly once — by its id, and as the last entry of
/// its owner's list; every other owner's list is untouched.
pub proof fn lemma_new_product_visible(
    c: ContractView,
    caller: Seq<char>,
    id: Seq<char>,
    name: Seq<char>,
    total_supply: u64,
    price: u128,
    desc: Seq<char>,
)
    requires
        product_ids_unique(c.products),
        shop_owners_unique(c.shops),
        has_shop(c.shops, caller),
        !has_product(c.products, id),
    ensures
        ({
            let c2 = with_new_product(c, caller, id, name, total_supply, price, desc);
            let p = ProductView {
                product_id: id,
                name,
                total_supply,
                price,
                desc,
                owner: caller,
            };
            &&& has_product(c2.products, id)
            &&& product_of(c2.products, id) == p
            &&& forall|j: int|
                0 <= j < c2.products.len() && (#[trigger] c2.products[j]).product_id == id
                    ==> j == c2.products.len() - 1
            &&& products_of_owner(c2.products, caller) == products_of_owner(
                c.products,
                caller,
            ).push(p)
            &&& forall|o: Seq<char>|
                o != caller ==> #[trigger] products_of_owner(c2.products, o)
                    == products_of_owner(c.products, o)
        }),
{
    let c2 = with_new_product(c, caller, id, name, total_supply, price, desc);
    let p = ProductView { product_id: id, name, total_supply, price, desc, owner: caller };
    let last = c2.products.len() - 1;
    assert(c2.products[last] == p);
    assert(has_product(c2.products, id));
    assert forall|j: int|
        0 <= j < c2.products.len() && (#[trigger] c2.products[j]).product_id == id implies j
        == last by {
        if j < last {
            assert(c2.products[j] == c.products[j]);
        }
    }
    let w = product_index_of(c2.products, id);
    assert(0 <= w < c2.products.len() && c2.products[w].product_id == id);
    assert(w == last);
    lemma_products_of_owner_push(c.products, p, caller);
    assert forall|o: Seq<char>| o != caller implies #[trigger] products_of_owner(c2.products, o)
        == products_of_owner(c.products, o) by {
        lemma_products_of_owner_push(c.products, p, o);
    }
}

/// The store after a successful product creation: the product is appended to
/// the sequential product list and the owning shop's product count grows by
/// one; nothing else moves.
pub open spec fn with_new_product(
    c: ContractView,
    caller: Seq<char>,
    id: Seq<char>,
    name: Seq<char>,
    total_supply: u64,
    price: u128,
    desc: Seq<char>,
) -> ContractView {
    let p = ProductView { product_id: id, name, total_supply, price, desc, owner: caller };
    let k = shop_index_of(c.shops, caller);
    let s = c.shops[k];
    ContractView {
        products: c.products.push(p),
        shops: c.shops.update(k, ShopView { total_product: (s.total_product + 1) as u64, ..s }),
        ..c
    }
}

} // verus!
