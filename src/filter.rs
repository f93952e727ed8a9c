//! The filter that a listing query applies: a conjunction of optional
//! constraints on id, a set of ids, and name.

use vstd::prelude::*;

use crate::check::{
    find_param, ids_of_text, long_of_text, param_value, params_check, parse_ids, validate_cost_item_params,
    validate_long,
};
use crate::error::ApiError;
use crate::model::CostItemsView;

verus! {

/// The constraints of a listing query; an absent field constrains nothing.
/// `price` and `notes` are accepted parameter names but never constrain.
pub struct CostItemFilter {
    pub id: Option<i64>,
    pub ids: Option<Vec<i64>>,
    pub name: Option<String>,
}

pub struct CostItemFilterView {
    pub id: Option<i64>,
    pub ids: Option<Set<i64>>,
    pub name: Option<Seq<char>>,
}

impl View for CostItemFilter {
    type V = CostItemFilterView;

    open spec fn view(&self) -> CostItemFilterView {
        CostItemFilterView {
            id: self.id,
            ids: match self.ids {
                Some(v) => Some(v@.to_set()),
                None => None,
            },
            name: match self.name {
                Some(n) => Some(n@),
                None => None,
            },
        }
    }
}

impl CostItemFilter {
    /// The id list holds each id once.
    pub open spec fn wf(&self) -> bool {
        self.ids is Some ==> self.ids->Some_0@.no_duplicates()
    }
}

/// Whether a row meets every constraint of the filter.
pub open spec fn selects(f: CostItemFilterView, row: CostItemsView) -> bool {
    &&& (f.id is Some ==> row.id == f.id->Some_0)
    &&& (f.ids is Some ==> f.ids->Some_0.contains(row.id))
    &&& (f.name is Some ==> row.name == f.name->Some_0)
}

/// The filter that valid parameters describe: `id` if given, else the set of
/// `ids` if given, and `name` if given.
pub open spec fn filter_of_params(ps: Seq<(String, String)>) -> CostItemFilterView {
    let id = param_value(ps, "id"@);
    let ids = param_value(ps, "ids"@);
    CostItemFilterView {
        id: match id {
            Some(v) => long_of_text(v),
            None => None,
        },
        ids: if id is None && ids is Some {
            Some(ids_of_text(ids->Some_0)->Ok_0.to_set())
        } else {
            None
        },
        name: param_value(ps, "name"@),
    }
}

/// Whether `v` holds `x`.
fn holds_id(v: &Vec<i64>, x: i64) -> (r: bool)
    ensures
        r == v@.contains(x),
{
    let mut i: usize = 0;
    while i < v.len()
        invariant
            i <= v@.len(),
            forall|j: int| 0 <= j < i ==> v@[j] != x,
        decreases v.len() - i,
    {
        if v[i] == x {
            return true;
        }
        i = i + 1;
    }
    false
}

/// The ids of `ids`, each once, in order of first appearance.
fn distinct_ids(ids: &Vec<i64>) -> (r: Vec<i64>)
    ensures
        r@.no_duplicates(),
        r@.to_set() == ids@.to_set(),
{
    let mut r: Vec<i64> = Vec::new();
    let mut i: usize = 0;
    while i < ids.len()
        invariant
            i <= ids@.len(),
            r@.no_duplicates(),
            r@.to_set() == ids@.take(i as int).to_set(),
        decreases ids.len() - i,
    {
        let x = ids[i];
        let ghost before = r@;
        if !holds_id(&r, x) {
            r.push(x);
        }
        assert(r@.to_set() =~= ids@.take(i + 1).to_set()) by {
            assert(ids@.take(i + 1) =~= ids@.take(i as int).push(x));
            assert forall|y: i64| r@.contains(y) <==> ids@.take(i + 1).contains(y) by {
                if r@.contains(y) {
                    if y != x {
                        let k = choose|k: int| 0 <= k < r@.len() && r@[k] == y;
                        assert(before.contains(y)) by {
                            assert(before[k] == y);
                        }
                        assert(before.to_set().contains(y));
                        let m = choose|m: int| 0 <= m < i && #[trigger] ids@.take(i as int)[m] == y;
                        assert(ids@.take(i + 1)[m] == y);
                    } else {
                        assert(ids@.take(i + 1)[i as int] == y);
                    }
                }
                if ids@.take(i + 1).contains(y) {
                    let m = choose|m: int| 0 <= m < i + 1 && #[trigger] ids@.take(i + 1)[m] == y;
                    if m < i {
                        assert(ids@.take(i as int)[m] == y);
                        assert(ids@.take(i as int).to_set().contains(y));
                        assert(before.contains(y));
                        let k = choose|k: int| 0 <= k < before.len() && before[k] == y;
                        assert(r@[k] == y);
                    } else if before.contains(x) {
                        let k = choose|k: int| 0 <= k < before.len() && before[k] == x;
                        assert(r@[k] == y);
                    } else {
                        assert(r@[r@.len() - 1] == y);
                    }
                }
            }
        }
        i = i + 1;
    }
    assert(ids@.take(ids@.len() as int) =~= ids@);
    r
}

impl CostItemFilter {
    /// Validates the query parameters of a listing and builds the filter they
    /// describe. No parameters give the filter that selects every row.
    pub fn from_params(params: &Vec<(String, String)>) -> (r: Result<CostItemFilter, ApiError>)
        ensures
            match params_check(params@) {
                Ok(_) => r is Ok && r->Ok_0.wf() && r->Ok_0@ == filter_of_params(params@),
                Err(e) => r is Err && r->Err_0@ == e,
            },
    {
        match validate_cost_item_params(params) {
            Ok(..) => (),
            Err(err) => return Err(err),
        }
        let id = match find_param(params, "id") {
            Some(v) => match validate_long(v.as_str()) {
                Ok(n) => Some(n),
                Err(err) => return Err(err),
            },
            None => None,
        };
        let ids = if id.is_none() {
            match find_param(params, "ids") {
                Some(v) => match parse_ids(v.as_str()) {
                    Ok(list) => Some(distinct_ids(&list)),
                    Err(err) => return Err(err),
                },
                None => None,
            }
        } else {
            None
        };
        let name = match find_param(params, "name") {
            Some(v) => Some(v.clone()),
            None => None,
        };
        Ok(CostItemFilter { id, ids, name })
    }
}

/// No parameters give a filter that selects every row.
pub proof fn lemma_no_params_select_all(row: CostItemsView)
    ensures
        selects(filter_of_params(Seq::empty()), row),
{
}

} // verus!
