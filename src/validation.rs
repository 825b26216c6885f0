use vstd::prelude::*;

use crate::domain::AssetTag;
use crate::orders::OrderRequest;

verus! {

/// Why a request was refused before it reached the book.
#[derive(PartialEq, Eq, Structural, Clone, Copy, Debug)]
pub enum ValidationError {
    BadOrderAsset,
    BadPriceAsset,
    BadPriceValue,
    BadQuantityValue,
    BadSeqId,
    BadOrderCreator,
}

impl ValidationError {
    /// A short human-readable description.
    pub fn message(&self) -> (r: &'static str) {
        match self {
            ValidationError::BadOrderAsset => "bad order asset",
            ValidationError::BadPriceAsset => "bad price asset",
            ValidationError::BadPriceValue => "price must be positive",
            ValidationError::BadQuantityValue => "quantity must be positive",
            ValidationError::BadSeqId => "order ID out of range",
            ValidationError::BadOrderCreator => "order_creator can't be empty",
        }
    }
}

/// Checks requests against the book's asset pair and the range of ids that
/// have been handed out.
#[derive(Clone, Debug)]
pub struct OrderRequestValidator<A> {
    pub orderbook_order_asset: A,
    pub orderbook_price_asset: A,
    pub min_sequence_id: u64,
    pub max_sequence_id: u64,
}

/// The outcome of checking a new order's fields, in the order the checks run.
pub open spec fn new_order_check<A>(
    book_order_asset: A,
    book_price_asset: A,
    order_asset: A,
    price_asset: A,
    price_ok: bool,
    qty: u128,
    order_creator: Seq<char>,
) -> Result<(), ValidationError> {
    if order_asset != book_order_asset {
        Err(ValidationError::BadOrderAsset)
    } else if price_asset != book_price_asset {
        Err(ValidationError::BadPriceAsset)
    } else if !price_ok {
        Err(ValidationError::BadPriceValue)
    } else if qty == 0 {
        Err(ValidationError::BadQuantityValue)
    } else if order_creator.len() == 0 {
        Err(ValidationError::BadOrderCreator)
    } else {
        Ok(())
    }
}

impl<A: AssetTag> OrderRequestValidator<A> {
    pub open spec fn in_range(&self, id: u64) -> bool {
        self.min_sequence_id <= id <= self.max_sequence_id
    }

    /// The outcome of checking an amend: the id first, then price and quantity.
    pub open spec fn amend_check(&self, id: u64, price: u64, qty: u128) -> Result<(), ValidationError> {
        if !self.in_range(id) {
            Err(ValidationError::BadSeqId)
        } else if price == 0 {
            Err(ValidationError::BadPriceValue)
        } else if qty == 0 {
            Err(ValidationError::BadQuantityValue)
        } else {
            Ok(())
        }
    }

    pub open spec fn cancel_check(&self, id: u64) -> Result<(), ValidationError> {
        if !self.in_range(id) {
            Err(ValidationError::BadSeqId)
        } else {
            Ok(())
        }
    }

    /// What `validate` answers for a request.
    pub open spec fn validate_spec(&self, request: OrderRequest<A>) -> Result<(), ValidationError> {
        match request {
            OrderRequest::NewMarketOrder { order_asset, price_asset, qty, order_creator, .. } =>
                new_order_check(
                self.orderbook_order_asset,
                self.orderbook_price_asset,
                order_asset,
                price_asset,
                true,
                qty,
                order_creator@,
            ),
            OrderRequest::NewLimitOrder {
                order_asset,
                price_asset,
                price,
                qty,
                order_creator,
                ..
            } => new_order_check(
                self.orderbook_order_asset,
                self.orderbook_price_asset,
                order_asset,
                price_asset,
                price > 0,
                qty,
                order_creator@,
            ),
            OrderRequest::AmendOrder { id, price, qty, .. } => self.amend_check(id, price, qty),
            OrderRequest::CancelOrder { id, .. } => self.cancel_check(id),
        }
    }

    pub fn new(
        orderbook_order_asset: A,
        orderbook_price_asset: A,
        min_sequence_id: u64,
        max_sequence_id: u64,
    ) -> (r: Self)
        ensures
            r == (OrderRequestValidator {
                orderbook_order_asset,
                orderbook_price_asset,
                min_sequence_id,
                max_sequence_id,
            }),
    {
        OrderRequestValidator {
            orderbook_order_asset,
            orderbook_price_asset,
            min_sequence_id,
            max_sequence_id,
        }
    }

    /// Checks a request; the first failed check names the error.
    pub fn validate(&self, request: &OrderRequest<A>) -> (r: Result<(), ValidationError>)
        ensures
            r == self.validate_spec(*request),
    {
        match request {
            OrderRequest::NewMarketOrder { order_asset, price_asset, qty, order_creator, .. } => {
                self.validate_market(*order_asset, *price_asset, *qty, order_creator)
            },
            OrderRequest::NewLimitOrder {
                order_asset,
                price_asset,
                price,
                qty,
                order_creator,
                ..
            } => self.validate_limit(*order_asset, *price_asset, *price, *qty, order_creator),
            OrderRequest::AmendOrder { id, price, qty, .. } => self.validate_amend(*id, *price, *qty),
            OrderRequest::CancelOrder { id, .. } => self.validate_cancel(*id),
        }
    }

    pub fn validate_market(
        &self,
        order_asset: A,
        price_asset: A,
        qty: u128,
        order_creator: &String,
    ) -> (r: Result<(), ValidationError>)
        ensures
            r == new_order_check(
                self.orderbook_order_asset,
                self.orderbook_price_asset,
                order_asset,
                price_asset,
                true,
                qty,
                order_creator@,
            ),
    {
        if !self.orderbook_order_asset.same(&order_asset) {
            return Err(ValidationError::BadOrderAsset);
        }
        if !self.orderbook_price_asset.same(&price_asset) {
            return Err(ValidationError::BadPriceAsset);
        }
        if qty == 0 {
            return Err(ValidationError::BadQuantityValue);
        }
        if order_creator.as_str().is_empty() {
            return Err(ValidationError::BadOrderCreator);
        }
        Ok(())
    }

    pub fn validate_limit(
        &self,
        order_asset: A,
        price_asset: A,
        price: u64,
        qty: u128,
        order_creator: &String,
    ) -> (r: Result<(), ValidationError>)
        ensures
            r == new_order_check(
                self.orderbook_order_asset,
                self.orderbook_price_asset,
                order_asset,
                price_asset,
                price > 0,
                qty,
                order_creator@,
            ),
    {
        if !self.orderbook_order_asset.same(&order_asset) {
            return Err(ValidationError::BadOrderAsset);
        }
        if !self.orderbook_price_asset.same(&price_asset) {
            return Err(ValidationError::BadPriceAsset);
        }
        if price == 0 {
            return Err(ValidationError::BadPriceValue);
        }
        if qty == 0 {
            return Err(ValidationError::BadQuantityValue);
        }
        if order_creator.as_str().is_empty() {
            return Err(ValidationError::BadOrderCreator);
        }
        Ok(())
    }

    pub fn validate_amend(&self, id: u64, price: u64, qty: u128) -> (r: Result<(), ValidationError>)
        ensures
            r == self.amend_check(id, price, qty),
    {
        if self.min_sequence_id > id || self.max_sequence_id < id {
            return Err(ValidationError::BadSeqId);
        }
        if price == 0 {
            return Err(ValidationError::BadPriceValue);
        }
        if qty == 0 {
            return Err(ValidationError::BadQuantityValue);
        }
        Ok(())
    }

    pub fn validate_cancel(&self, id: u64) -> (r: Result<(), ValidationError>)
        ensures
            r == self.cancel_check(id),
    {
        if self.min_sequence_id > id || self.max_sequence_id < id {
            return Err(ValidationError::BadSeqId);
        }
        Ok(())
    }
}

} // verus!
