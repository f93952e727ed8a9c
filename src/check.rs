//! Parsing of raw query and path parameters into typed values.

use vstd::prelude::*;

use crate::error::{
    id_xor_ids_error, invalid_integer_error, unknown_parameter_error, ApiError, ApiErrorView, BAD_REQUEST,
};

verus! {

pub open spec fn is_digit(c: char) -> bool {
    '0' <= c && c <= '9'
}

pub open spec fn all_digits(d: Seq<char>) -> bool {
    forall|i: int| 0 <= i < d.len() ==> is_digit(#[trigger] d[i])
}

/// The value of a sequence of decimal digits, most significant first.
pub open spec fn digits_value(d: Seq<char>) -> int
    decreases d.len(),
{
    if d.len() == 0 {
        0
    } else {
        digits_value(d.drop_last()) * 10 + (d.last() as int - '0' as int)
    }
}

/// The integer that a text denotes: an optional `+` or `-` followed by one or
/// more decimal digits, and nothing else.
pub open spec fn integer_of_text(s: Seq<char>) -> Option<int> {
    if s.len() > 0 && (s[0] == '+' || s[0] == '-') {
        let d = s.drop_first();
        if d.len() > 0 && all_digits(d) {
            Some(if s[0] == '-' { -digits_value(d) } else { digits_value(d) })
        } else {
            None
        }
    } else if s.len() > 0 && all_digits(s) {
        Some(digits_value(s))
    } else {
        None
    }
}

/// The integer a text denotes, where it lies in `[lo, hi]`.
pub open spec fn bounded_integer_of_text(s: Seq<char>, lo: int, hi: int) -> Option<int> {
    match integer_of_text(s) {
        Some(v) => if lo <= v <= hi { Some(v) } else { None },
        None => None,
    }
}

/// The 64-bit integer a text denotes.
pub open spec fn long_of_text(s: Seq<char>) -> Option<i64> {
    match bounded_integer_of_text(s, i64::MIN as int, i64::MAX as int) {
        Some(v) => Some(v as i64),
        None => None,
    }
}

/// The 32-bit integer a text denotes.
pub open spec fn int_of_text(s: Seq<char>) -> Option<i32> {
    match bounded_integer_of_text(s, i32::MIN as int, i32::MAX as int) {
        Some(v) => Some(v as i32),
        None => None,
    }
}

proof fn lemma_digits_value_nonneg(d: Seq<char>)
    requires
        all_digits(d),
    ensures
        digits_value(d) >= 0,
    decreases d.len(),
{
    if d.len() > 0 {
        lemma_digits_value_nonneg(d.drop_last());
    }
}

/// A longer prefix of a digit sequence never has a smaller value.
proof fn lemma_prefix_value_grows(d: Seq<char>, i: int, j: int)
    requires
        all_digits(d),
        0 <= i <= j <= d.len(),
    ensures
        digits_value(d.take(i)) <= digits_value(d.take(j)),
    decreases j - i,
{
    if i < j {
        lemma_prefix_value_grows(d, i, j - 1);
        assert(d.take(j).drop_last() =~= d.take(j - 1));
        lemma_digits_value_nonneg(d.take(j - 1));
    }
}

/// Reads the integer that `s` denotes, provided it lies in `[lo, hi]`.
fn parse_bounded(s: &str, lo: i128, hi: i128) -> (r: Option<i128>)
    requires
        lo < 0 < hi,
        hi < -lo,
        -lo <= u64::MAX,
    ensures
        r == (match bounded_integer_of_text(s@, lo as int, hi as int) {
            Some(v) => Some(v as i128),
            None => None,
        }),
{
    let n = s.unicode_len();
    if n == 0 {
        return None;
    }
    let first = s.get_char(0);
    let signed = first == '+' || first == '-';
    let start: usize = if signed { 1 } else { 0 };
    if start == n {
        return None;
    }
    let ghost d = s@.subrange(start as int, n as int);
    assert(signed ==> d =~= s@.drop_first());
    assert(!signed ==> d =~= s@);
    let limit: i128 = -lo;
    let mut acc: i128 = 0;
    let mut i: usize = start;
    while i < n
        invariant
            n == s@.len(),
            start <= i <= n,
            start < n,
            first == s@[0],
            signed == (first == '+' || first == '-'),
            start == (if signed { 1usize } else { 0usize }),
            signed ==> d == s@.drop_first(),
            !signed ==> d == s@,
            lo < 0 < hi,
            hi < -lo,
            d == s@.subrange(start as int, n as int),
            limit == -lo,
            limit <= u64::MAX,
            all_digits(d.take(i - start)),
            acc == digits_value(d.take(i - start)),
            0 <= acc <= limit,
        decreases n - i,
    {
        let c = s.get_char(i);
        if !('0' <= c && c <= '9') {
            assert(d[i - start] == c);
            assert(!all_digits(d));
            return None;
        }
        let ghost k = i - start;
        assert(d.take(k + 1).drop_last() =~= d.take(k));
        assert(d.take(k + 1).last() == c);
        acc = acc * 10 + (c as u32 - '0' as u32) as i128;
        i = i + 1;
        assert(all_digits(d.take(i - start))) by {
            assert forall|j: int| 0 <= j < d.take(k + 1).len() implies is_digit(
                #[trigger] d.take(k + 1)[j],
            ) by {
                if j < k {
                    assert(d.take(k + 1)[j] == d.take(k)[j]);
                }
            }
        }
        if acc > limit {
            proof {
                if all_digits(d) {
                    lemma_prefix_value_grows(d, i - start, d.len() as int);
                    assert(d.take(d.len() as int) =~= d);
                    lemma_digits_value_nonneg(d);
                }
            }
            return None;
        }
    }
    assert(d.take(n - start) =~= d);
    let v: i128 = if first == '-' { -acc } else { acc };
    if v < lo || v > hi {
        None
    } else {
        Some(v)
    }
}

/// Parses a 64-bit integer.
pub fn parse_long(s: &str) -> (r: Option<i64>)
    ensures
        r == long_of_text(s@),
{
    match parse_bounded(s, i64::MIN as i128, i64::MAX as i128) {
        Some(v) => Some(v as i64),
        None => None,
    }
}

/// Parses a 32-bit integer.
pub fn parse_int(s: &str) -> (r: Option<i32>)
    ensures
        r == int_of_text(s@),
{
    match parse_bounded(s, i32::MIN as i128, i32::MAX as i128) {
        Some(v) => Some(v as i32),
        None => None,
    }
}

/// Checks that `int_str` is a 64-bit integer and returns it.
pub fn validate_long(int_str: &str) -> (r: Result<i64, ApiError>)
    ensures
        match long_of_text(int_str@) {
            Some(v) => r == Ok::<i64, ApiError>(v),
            None => r is Err && r->Err_0@ == invalid_integer_error(int_str@),
        },
{
    match parse_long(int_str) {
        Some(v) => Ok(v),
        None => Err(ApiError::invalid_integer(int_str)),
    }
}

/// Checks that `int_str` is a 32-bit integer and returns it.
pub fn validate_int(int_str: &str) -> (r: Result<i32, ApiError>)
    ensures
        match int_of_text(int_str@) {
            Some(v) => r == Ok::<i32, ApiError>(v),
            None => r is Err && r->Err_0@ == invalid_integer_error(int_str@),
        },
{
    match parse_int(int_str) {
        Some(v) => Ok(v),
        None => Err(ApiError::invalid_integer(int_str)),
    }
}

/// The pieces of `s` between commas, in order; `s` with no comma is one piece.
pub open spec fn split_commas(s: Seq<char>) -> Seq<Seq<char>>
    decreases s.len(),
{
    if s.len() == 0 {
        seq![Seq::<char>::empty()]
    } else {
        let rest = split_commas(s.drop_last());
        if s.last() == ',' {
            rest.push(Seq::<char>::empty())
        } else {
            rest.update(rest.len() - 1, rest.last().push(s.last()))
        }
    }
}

/// The integers that the tokens denote, or the first token that is not one.
pub open spec fn longs_of_tokens(toks: Seq<Seq<char>>) -> Result<Seq<i64>, Seq<char>>
    decreases toks.len(),
{
    if toks.len() == 0 {
        Ok(Seq::empty())
    } else {
        match longs_of_tokens(toks.drop_last()) {
            Err(t) => Err(t),
            Ok(v) => match long_of_text(toks.last()) {
                Some(n) => Ok(v.push(n)),
                None => Err(toks.last()),
            },
        }
    }
}

/// The ids of a comma-separated list, or the first piece that is no integer.
pub open spec fn ids_of_text(s: Seq<char>) -> Result<Seq<i64>, Seq<char>> {
    longs_of_tokens(split_commas(s))
}

proof fn lemma_split_commas_nonempty(s: Seq<char>)
    ensures
        split_commas(s).len() >= 1,
    decreases s.len(),
{
    if s.len() > 0 {
        lemma_split_commas_nonempty(s.drop_last());
    }
}

/// Splitting a prefix that ends with the current piece.
proof fn lemma_split_step(s: Seq<char>, start: int, i: int)
    requires
        0 <= start <= i < s.len(),
        split_commas(s.take(i)).len() >= 1,
        split_commas(s.take(i)).last() == s.subrange(start, i),
    ensures
        s[i] == ',' ==> split_commas(s.take(i + 1)) == split_commas(s.take(i)).push(
            Seq::<char>::empty(),
        ),
        s[i] != ',' ==> split_commas(s.take(i + 1)) == split_commas(s.take(i)).update(
            split_commas(s.take(i)).len() - 1,
            s.subrange(start, i + 1),
        ),
{
    assert(s.take(i + 1).drop_last() =~= s.take(i));
    assert(s.subrange(start, i).push(s[i]) =~= s.subrange(start, i + 1));
}

/// The pieces before the last one stay fixed as the text grows.
proof fn lemma_split_prefix_stable(s: Seq<char>, i: int, j: int)
    requires
        0 <= i <= j <= s.len(),
    ensures
        split_commas(s.take(j)).len() >= split_commas(s.take(i)).len(),
        forall|k: int|
            0 <= k < split_commas(s.take(i)).len() - 1 ==> split_commas(s.take(j))[k]
                == #[trigger] split_commas(s.take(i))[k],
    decreases j - i,
{
    if i < j {
        lemma_split_prefix_stable(s, i, j - 1);
        lemma_split_commas_nonempty(s.take(j - 1));
        assert(s.take(j).drop_last() =~= s.take(j - 1));
    }
}

/// An error among the first tokens is the error of the whole list.
proof fn lemma_first_error_wins(toks: Seq<Seq<char>>, all: Seq<Seq<char>>)
    requires
        toks.len() <= all.len(),
        forall|k: int| 0 <= k < toks.len() ==> all[k] == #[trigger] toks[k],
        longs_of_tokens(toks) is Err,
    ensures
        longs_of_tokens(all) == longs_of_tokens(toks),
    decreases all.len(),
{
    if all.len() == toks.len() {
        assert(all =~= toks);
    } else {
        lemma_first_error_wins(toks, all.drop_last());
    }
}

/// A piece that is no integer, found before the end, is the error of the
/// whole text.
proof fn lemma_tokens_error_kept(s: Seq<char>, j: int, toks: Seq<Seq<char>>)
    requires
        0 <= j <= s.len(),
        split_commas(s.take(j)).len() >= 1,
        toks == split_commas(s.take(j)).drop_last(),
        longs_of_tokens(toks) is Err,
    ensures
        longs_of_tokens(split_commas(s)) == longs_of_tokens(toks),
{
    lemma_split_prefix_stable(s, j, s.len() as int);
    assert(s.take(s.len() as int) =~= s);
    lemma_first_error_wins(toks, split_commas(s));
}

/// Checks that every comma-separated piece of `ids_str` is a 64-bit integer
/// and returns them in order, duplicates kept.
pub fn parse_ids(ids_str: &str) -> (r: Result<Vec<i64>, ApiError>)
    ensures
        match ids_of_text(ids_str@) {
            Ok(v) => r is Ok && r->Ok_0@ == v,
            Err(t) => r is Err && r->Err_0@ == invalid_integer_error(t),
        },
{
    let n = ids_str.unicode_len();
    let ghost s = ids_str@;
    let mut ids: Vec<i64> = Vec::new();
    let mut start: usize = 0;
    let mut i: usize = 0;
    assert(s.take(0) =~= Seq::<char>::empty());
    assert(s.subrange(0, 0) =~= Seq::<char>::empty());
    while i < n
        invariant
            n == s.len(),
            s == ids_str@,
            start <= i <= n,
            split_commas(s.take(i as int)).len() >= 1,
            split_commas(s.take(i as int)).last() == s.subrange(start as int, i as int),
            longs_of_tokens(split_commas(s.take(i as int)).drop_last()) == Ok::<
                Seq<i64>,
                Seq<char>,
            >(ids@),
        decreases n - i,
    {
        let c = ids_str.get_char(i);
        proof {
            lemma_split_step(s, start as int, i as int);
        }
        let ghost before = split_commas(s.take(i as int));
        if c == ',' {
            let token = ids_str.substring_char(start, i);
            assert(before.push(Seq::<char>::empty()).drop_last() =~= before);
            match validate_long(token) {
                Ok(v) => {
                    ids.push(v);
                },
                Err(e) => {
                    proof {
                        lemma_tokens_error_kept(s, i as int + 1, before);
                    }
                    return Err(e);
                },
            }
            start = i + 1;
        } else {
            let ghost after = before.update(before.len() - 1, s.subrange(start as int, i + 1));
            assert(after.drop_last() =~= before.drop_last());
        }
        i = i + 1;
    }
    assert(s.take(n as int) =~= s);
    let last = ids_str.substring_char(start, n);
    match validate_long(last) {
        Ok(v) => {
            ids.push(v);
            Ok(ids)
        },
        Err(e) => Err(e),
    }
}

/// Whether two texts hold the same characters.
pub fn same_text(a: &str, b: &str) -> (r: bool)
    ensures
        r == (a@ == b@),
{
    let n = a.unicode_len();
    if n != b.unicode_len() {
        return false;
    }
    let mut i: usize = 0;
    while i < n
        invariant
            n == a@.len(),
            n == b@.len(),
            i <= n,
            a@.take(i as int) == b@.take(i as int),
        decreases n - i,
    {
        if a.get_char(i) != b.get_char(i) {
            return false;
        }
        assert(a@.take(i + 1) =~= a@.take(i as int).push(a@[i as int]));
        assert(b@.take(i + 1) =~= b@.take(i as int).push(b@[i as int]));
        i = i + 1;
    }
    assert(a@ =~= a@.take(n as int));
    assert(b@ =~= b@.take(n as int));
    true
}

/// The names that a cost item filter accepts.
pub open spec fn is_filter_key(k: Seq<char>) -> bool {
    k == "id"@ || k == "ids"@ || k == "name"@ || k == "price"@ || k == "notes"@
}

/// The value given for `key`: the first entry with that name wins.
pub open spec fn param_value(ps: Seq<(String, String)>, key: Seq<char>) -> Option<Seq<char>>
    decreases ps.len(),
{
    if ps.len() == 0 {
        None
    } else if ps[0].0@ == key {
        Some(ps[0].1@)
    } else {
        param_value(ps.drop_first(), key)
    }
}

/// The first name, in order, that a filter does not accept.
pub open spec fn first_unknown_key(ps: Seq<(String, String)>) -> Option<Seq<char>>
    decreases ps.len(),
{
    if ps.len() == 0 {
        None
    } else if !is_filter_key(ps[0].0@) {
        Some(ps[0].0@)
    } else {
        first_unknown_key(ps.drop_first())
    }
}

/// The verdict on a set of filter parameters: unknown names first, then `id`
/// together with `ids`, then a malformed `id`, then a malformed `ids`.
pub open spec fn params_check(ps: Seq<(String, String)>) -> Result<(), ApiErrorView> {
    if first_unknown_key(ps) is Some {
        Err(unknown_parameter_error(first_unknown_key(ps)->Some_0))
    } else if param_value(ps, "id"@) is Some && param_value(ps, "ids"@) is Some {
        Err(id_xor_ids_error())
    } else if param_value(ps, "id"@) is Some && long_of_text(param_value(ps, "id"@)->Some_0) is None {
        Err(invalid_integer_error(param_value(ps, "id"@)->Some_0))
    } else if param_value(ps, "ids"@) is Some && ids_of_text(param_value(ps, "ids"@)->Some_0) is Err {
        Err(invalid_integer_error(ids_of_text(param_value(ps, "ids"@)->Some_0)->Err_0))
    } else {
        Ok(())
    }
}

/// Looks up the value given for `key`.
pub fn find_param<'a>(params: &'a Vec<(String, String)>, key: &str) -> (r: Option<&'a String>)
    ensures
        match param_value(params@, key@) {
            Some(v) => r is Some && r->Some_0@ == v,
            None => r is None,
        },
{
    let n = params.len();
    let mut i: usize = 0;
    assert(params@.skip(0) =~= params@);
    while i < n
        invariant
            n == params@.len(),
            i <= n,
            param_value(params@, key@) == param_value(params@.skip(i as int), key@),
        decreases n - i,
    {
        let ghost rest = params@.skip(i as int);
        assert(rest.drop_first() =~= params@.skip(i + 1));
        if same_text(params[i].0.as_str(), key) {
            return Some(&params[i].1);
        }
        i = i + 1;
    }
    None
}

/// Checks the parameters of a cost item filter: every name must be one of
/// `id`, `ids`, `name`, `price`, `notes`; `id` and `ids` exclude each other;
/// `id` must be an integer and `ids` a comma-separated list of integers.
pub fn validate_cost_item_params(params: &Vec<(String, String)>) -> (r: Result<bool, ApiError>)
    ensures
        match params_check(params@) {
            Ok(_) => r == Ok::<bool, ApiError>(true),
            Err(e) => r is Err && r->Err_0@ == e,
        },
{
    let n = params.len();
    let mut i: usize = 0;
    assert(params@.skip(0) =~= params@);
    while i < n
        invariant
            n == params@.len(),
            i <= n,
            first_unknown_key(params@) == first_unknown_key(params@.skip(i as int)),
        decreases n - i,
    {
        let ghost rest = params@.skip(i as int);
        assert(rest.drop_first() =~= params@.skip(i + 1));
        let key = params[i].0.as_str();
        if !(same_text(key, "id") || same_text(key, "ids") || same_text(key, "name") || same_text(
            key,
            "price",
        ) || same_text(key, "notes")) {
            return Err(ApiError::unknown_parameter(key));
        }
        i = i + 1;
    }
    let id = find_param(params, "id");
    let ids = find_param(params, "ids");
    if id.is_some() && ids.is_some() {
        return Err(ApiError::id_xor_ids());
    }
    if let Some(id) = id {
        match validate_long(id.as_str()) {
            Ok(..) => (),
            Err(err) => return Err(err),
        }
    }
    if let Some(ids) = ids {
        match parse_ids(ids.as_str()) {
            Ok(..) => (),
            Err(err) => return Err(err),
        }
    }
    Ok(true)
}

proof fn lemma_param_present(ps: Seq<(String, String)>, key: Seq<char>, i: int)
    requires
        0 <= i < ps.len(),
        ps[i].0@ == key,
    ensures
        param_value(ps, key) is Some,
    decreases i,
{
    if i > 0 && ps[0].0@ != key {
        lemma_param_present(ps.drop_first(), key, i - 1);
    }
}

proof fn lemma_all_keys_known(ps: Seq<(String, String)>)
    requires
        forall|k: int| 0 <= k < ps.len() ==> is_filter_key(#[trigger] ps[k].0@),
    ensures
        first_unknown_key(ps) is None,
    decreases ps.len(),
{
    if ps.len() > 0 {
        assert(is_filter_key(ps[0].0@));
        let rest = ps.drop_first();
        assert forall|k: int| 0 <= k < rest.len() implies is_filter_key(#[trigger] rest[k].0@) by {
            assert(rest[k] == ps[k + 1]);
        }
        lemma_all_keys_known(rest);
    }
}

/// Filter parameters that hold a name other than `id`, `ids`, `name`,
/// `price` and `notes` are rejected with status 400, naming the first such
/// parameter.
pub proof fn lemma_unknown_parameter_rejected(ps: Seq<(String, String)>, i: int)
    requires
        0 <= i < ps.len(),
        !is_filter_key(ps[i].0@),
    ensures
        first_unknown_key(ps) is Some,
        params_check(ps) == Err::<(), ApiErrorView>(
            unknown_parameter_error(first_unknown_key(ps)->Some_0),
        ),
        params_check(ps)->Err_0.status == BAD_REQUEST,
    decreases i,
{
    if i > 0 && is_filter_key(ps[0].0@) {
        lemma_unknown_parameter_rejected(ps.drop_first(), i - 1);
    }
}

/// Filter parameters with only accepted names that give both `id` and `ids`
/// are rejected with status 400 and the fixed "id xor ids" message, whatever
/// the other parameters are.
pub proof fn lemma_id_and_ids_rejected(ps: Seq<(String, String)>, i: int, j: int)
    requires
        0 <= i < ps.len(),
        0 <= j < ps.len(),
        ps[i].0@ == "id"@,
        ps[j].0@ == "ids"@,
        forall|k: int| 0 <= k < ps.len() ==> is_filter_key(#[trigger] ps[k].0@),
    ensures
        params_check(ps) == Err::<(), ApiErrorView>(id_xor_ids_error()),
        params_check(ps)->Err_0.status == BAD_REQUEST,
{
    lemma_all_keys_known(ps);
    lemma_param_present(ps, "id"@, i);
    lemma_param_present(ps, "ids"@, j);
}

} // verus!
