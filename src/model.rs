//! The cost item records and the documents that the service returns.

use vstd::prelude::*;

use crate::error::{not_found_error, storage_error, ApiError, INTERNAL_ERROR, NOT_FOUND};
use crate::price::Price;

verus! {

/// The fields of a cost item that a client supplies.
pub struct CostItem {
    pub name: String,
    pub price: Price,
    pub notes: Option<String>,
}

/// A stored cost item, with the id that storage assigned to it.
pub struct CostItems {
    pub id: i64,
    pub name: String,
    pub price: Price,
    pub notes: Option<String>,
}

pub struct CostItemView {
    pub name: Seq<char>,
    pub price: Seq<char>,
    pub notes: Option<Seq<char>>,
}

pub struct CostItemsView {
    pub id: i64,
    pub name: Seq<char>,
    pub price: Seq<char>,
    pub notes: Option<Seq<char>>,
}

pub open spec fn notes_view(notes: Option<String>) -> Option<Seq<char>> {
    match notes {
        Some(n) => Some(n@),
        None => None,
    }
}

impl View for CostItem {
    type V = CostItemView;

    open spec fn view(&self) -> CostItemView {
        CostItemView { name: self.name@, price: self.price@, notes: notes_view(self.notes) }
    }
}

impl View for CostItems {
    type V = CostItemsView;

    open spec fn view(&self) -> CostItemsView {
        CostItemsView {
            id: self.id,
            name: self.name@,
            price: self.price@,
            notes: notes_view(self.notes),
        }
    }
}

impl CostItem {
    /// A copy of the supplied fields, as they go to storage.
    pub fn from(cost_item: CostItem) -> (r: CostItem)
        ensures
            r@ == cost_item@,
    {
        CostItem { name: cost_item.name, price: cost_item.price, notes: cost_item.notes }
    }
}

/// The ways in which a storage operation can fail.
pub enum StorageFailure {
    /// No row matched the id.
    NotFound,
    /// Any other failure of the database, with its description.
    Other(String),
}

impl ApiError {
    /// The error that a storage failure surfaces as: a missing row is 404,
    /// anything else 500 with the database's description.
    pub fn from_storage(failure: StorageFailure) -> (r: ApiError)
        ensures
            match failure {
                StorageFailure::NotFound => r@ == not_found_error(),
                StorageFailure::Other(m) => r@ == storage_error(m@),
            },
    {
        match failure {
            StorageFailure::NotFound => ApiError {
                status: NOT_FOUND,
                message: String::from_str("record not found"),
            },
            StorageFailure::Other(m) => ApiError { status: INTERNAL_ERROR, message: m },
        }
    }
}

#[allow(non_snake_case)]
/// The document listing cost items.
pub struct CostItemsResponse {
    pub Ok: Vec<CostItems>,
}

#[allow(non_snake_case)]
/// The document holding one cost item.
pub struct CostItemResponse {
    pub Ok: CostItems,
}

/// The document reporting how many rows a delete removed.
pub struct DeleteResponse {
    pub deleted: usize,
}

#[allow(non_snake_case)]
/// The document reporting a failure.
pub struct ErrorResponse {
    pub Err: String,
}

impl ErrorResponse {
    pub fn from_error(e: &ApiError) -> (r: ErrorResponse)
        ensures
            r.Err@ == e.message@,
    {
        ErrorResponse { Err: e.message.clone() }
    }
}

impl DeleteResponse {
    /// The answer to a delete that removed `deleted` rows. Deleting an id that
    /// has no row is no failure: it answers with a count of zero.
    pub fn new(deleted: usize) -> (r: DeleteResponse)
        ensures
            r.deleted == deleted,
    {
        DeleteResponse { deleted }
    }
}

/// The API description; its contents are generated from the routes.
pub struct ApiDoc;

} // verus!
