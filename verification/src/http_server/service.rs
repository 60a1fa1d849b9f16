//! The answer to each request on keys.
//!
//! Each kind of request has a function that turns what the store handed back
//! into the response, and a method of [`Service`] that asks the store and
//! answers with that function.

use crate::errors::{lift, DatabaseError, ErrorView};
use crate::http_server::models::{
    ApiResponse, DeleteKeysRequest, ErrorResponse, GetAllKeysQuery, GetAllKeysResponse,
    GetResponse, GetTtlResponse, IncrementRequest, IncrementResponse, IntOrString,
    IntOrStringView, OperationSuccessResponse, SetRequest, SetTtlRequest,
};
use crate::storages::decimal::{format_decimal, format_i64};
use crate::storages::storage::{
    after_counter, after_delete, after_delete_prefix, after_read, after_scan, after_set,
    after_update_ttl, all_text, counter_result, get_result, get_ttl_result, key_not_text,
    lift_found, lift_value, lists, live_under, scan_result, update_ttl_result, Contents, Storage,
};
use crate::storages::ttl::NO_EXPIRY;
use crate::storages::value::{integer_value, Entry, StorageValue, ValueType};
use crate::text::utf8_text;
use vstd::prelude::*;
use vstd::string::*;
use vstd::utf8::*;

verus! {

/// The failure for a stored string that is no text.
pub open spec fn value_not_text() -> ErrorView {
    ErrorView::InternalError("Value is not valid UTF-8"@)
}

/// The entry that a request to set a key asks for: an integer as its decimal
/// text, a string as its UTF-8 bytes, with the ttl of the request.
pub open spec fn request_entry(request: SetRequest) -> Entry {
    match request.value {
        IntOrString::Int(n) => Entry {
            value_type: ValueType::Integer,
            ttl: request.ttl,
            value: format_decimal(n as int),
        },
        IntOrString::String(s) => Entry {
            value_type: ValueType::String,
            ttl: request.ttl,
            value: encode_utf8(s@),
        },
    }
}

/// The prefix that a request to delete keys names: the empty one where the
/// request has no body.
pub open spec fn request_prefix(request: Option<DeleteKeysRequest>) -> Seq<char> {
    match request {
        Some(r) => r.prefix@,
        None => Seq::empty(),
    }
}

/// What a value that was read is answered with: an integer as its number, a
/// string as its text, nothing for a key that is not there, and the message
/// of the failure where the read failed or the value cannot be shown.
pub open spec fn value_reply(found: Result<Option<Entry>, ErrorView>) -> Result<
    Option<IntOrStringView>,
    Seq<char>,
> {
    match found {
        Ok(Some(e)) => match e.value_type {
            ValueType::Integer => match integer_value(e) {
                Ok(n) => Ok(Some(IntOrStringView::Int(n))),
                Err(failure) => Err(failure.message()),
            },
            ValueType::String => if valid_utf8(e.value) {
                Ok(Some(IntOrStringView::String(decode_utf8(e.value))))
            } else {
                Err(value_not_text().message())
            },
        },
        Ok(None) => Ok(None),
        Err(failure) => Err(failure.message()),
    }
}

/// What an operation without a result is answered with.
pub open spec fn done_reply(done: Result<(), ErrorView>) -> Result<bool, Seq<char>> {
    match done {
        Ok(_) => Ok(true),
        Err(failure) => Err(failure.message()),
    }
}

/// What a ttl that was read is answered with: a key that is not found reads
/// as `-1`.
pub open spec fn ttl_reply(ttl: Result<i64, ErrorView>) -> Result<i64, Seq<char>> {
    match ttl {
        Ok(left) => Ok(left),
        Err(ErrorView::ValueNotFound(_)) => Ok(NO_EXPIRY),
        Err(failure) => Err(failure.message()),
    }
}

/// What a counter operation is answered with: the number that the entry now
/// holds.
pub open spec fn counter_reply(written: Result<Entry, ErrorView>) -> Result<i64, Seq<char>> {
    match written {
        Ok(e) => match integer_value(e) {
            Ok(n) => Ok(n),
            Err(failure) => Err(failure.message()),
        },
        Err(failure) => Err(failure.message()),
    }
}

/// A response to a read, in mathematical form.
pub open spec fn reply_of_value(r: ApiResponse<GetResponse>) -> Result<
    Option<IntOrStringView>,
    Seq<char>,
> {
    match r {
        ApiResponse::Success(response) => Ok(
            match response.value {
                Some(v) => Some(v@),
                None => None,
            },
        ),
        ApiResponse::ErrorResponse(e) => Err(e.error@),
    }
}

/// A response to an operation without a result, in mathematical form.
pub open spec fn reply_of_done(r: ApiResponse<OperationSuccessResponse>) -> Result<
    bool,
    Seq<char>,
> {
    match r {
        ApiResponse::Success(response) => Ok(response.success),
        ApiResponse::ErrorResponse(e) => Err(e.error@),
    }
}

/// A response to a read of a ttl, in mathematical form.
pub open spec fn reply_of_ttl(r: ApiResponse<GetTtlResponse>) -> Result<i64, Seq<char>> {
    match r {
        ApiResponse::Success(response) => Ok(response.ttl),
        ApiResponse::ErrorResponse(e) => Err(e.error@),
    }
}

/// A response to a counter operation, in mathematical form.
pub open spec fn reply_of_counter(r: ApiResponse<IncrementResponse>) -> Result<i64, Seq<char>> {
    match r {
        ApiResponse::Success(response) => Ok(response.value),
        ApiResponse::ErrorResponse(e) => Err(e.error@),
    }
}

/// What a scan of the store `s` may be answered with.
pub open spec fn listing_reply(
    s: Contents,
    prefix: Seq<u8>,
    now: i64,
    r: ApiResponse<GetAllKeysResponse>,
) -> bool {
    if all_text(live_under(s, prefix, now)) {
        r matches ApiResponse::Success(response) && lists(
            response.keys@,
            live_under(s, prefix, now),
        )
    } else {
        r matches ApiResponse::ErrorResponse(e) && e.error@ == key_not_text().message()
    }
}

/// The response that carries a failure's message.
fn failed<T>(failure: &DatabaseError) -> (r: ApiResponse<T>)
    ensures
        r matches ApiResponse::ErrorResponse(e) && e.error@ == failure@.message(),
{
    ApiResponse::ErrorResponse(ErrorResponse { error: failure.message() })
}

/// The value that a request to set a key asks for.
pub fn set_key_value(request: &SetRequest) -> (value: StorageValue)
    ensures
        value@ == request_entry(*request),
{
    match &request.value {
        IntOrString::Int(n) => StorageValue {
            value_type: ValueType::Integer,
            ttl: request.ttl,
            value: format_i64(*n),
        },
        IntOrString::String(s) => StorageValue {
            value_type: ValueType::String,
            ttl: request.ttl,
            value: s.as_str().as_bytes_vec(),
        },
    }
}

/// The prefix that a request to delete keys names.
pub fn delete_keys_prefix(request: Option<DeleteKeysRequest>) -> (prefix: String)
    ensures
        prefix@ == request_prefix(request),
{
    match request {
        Some(r) => r.prefix,
        None => String::new(),
    }
}

/// Answers a read of a key.
pub fn get_by_key_response(result: Result<Option<StorageValue>, DatabaseError>) -> (r: ApiResponse<
    GetResponse,
>)
    ensures
        reply_of_value(r) == value_reply(lift_found(result)),
{
    match result {
        Ok(Some(stored)) => match stored.value_type {
            ValueType::Integer => match stored.get_integer_value() {
                Ok(n) => ApiResponse::Success(GetResponse { value: Some(IntOrString::Int(n)) }),
                Err(failure) => failed(&failure),
            },
            ValueType::String => match utf8_text(stored.value.as_slice()) {
                Some(text) => ApiResponse::Success(
                    GetResponse { value: Some(IntOrString::String(text)) },
                ),
                None => failed(
                    &DatabaseError::InternalError("Value is not valid UTF-8".to_owned()),
                ),
            },
        },
        Ok(None) => ApiResponse::Success(GetResponse { value: None }),
        Err(failure) => failed(&failure),
    }
}

/// Answers a scan: the keys as they were listed, or the failure's message.
pub fn get_all_keys_response(result: Result<Vec<String>, DatabaseError>) -> (r: ApiResponse<
    GetAllKeysResponse,
>)
    ensures
        match result {
            Ok(names) => r == ApiResponse::Success(GetAllKeysResponse { keys: names }),
            Err(failure) => r matches ApiResponse::ErrorResponse(e) && e.error@
                == failure@.message(),
        },
{
    match result {
        Ok(keys) => ApiResponse::Success(GetAllKeysResponse { keys }),
        Err(failure) => failed(&failure),
    }
}

/// Answers an operation without a result.
pub fn done_response(result: Result<(), DatabaseError>) -> (r: ApiResponse<
    OperationSuccessResponse,
>)
    ensures
        reply_of_done(r) == done_reply(lift(result)),
{
    match result {
        Ok(()) => ApiResponse::Success(OperationSuccessResponse { success: true }),
        Err(failure) => failed(&failure),
    }
}

/// Answers a read of a ttl. A key that is not found is answered with `-1`.
pub fn get_ttl_response(result: Result<i64, DatabaseError>) -> (r: ApiResponse<GetTtlResponse>)
    ensures
        reply_of_ttl(r) == ttl_reply(lift(result)),
{
    match result {
        Ok(ttl) => ApiResponse::Success(GetTtlResponse { ttl }),
        Err(DatabaseError::ValueNotFound(_)) => ApiResponse::Success(GetTtlResponse { ttl: -1 }),
        Err(failure) => failed(&failure),
    }
}

/// Answers a counter operation with the number that the entry now holds.
pub fn counter_response(result: Result<StorageValue, DatabaseError>) -> (r: ApiResponse<
    IncrementResponse,
>)
    ensures
        reply_of_counter(r) == counter_reply(lift_value(result)),
{
    match result {
        Ok(written) => match written.get_integer_value() {
            Ok(value) => ApiResponse::Success(IncrementResponse { value }),
            Err(failure) => failed(&failure),
        },
        Err(failure) => failed(&failure),
    }
}

/// The requests on keys, answered from one store.
pub struct Service<S: Storage> {
    db: S,
}

impl<S: Storage> Service<S> {
    /// What the store of the service holds.
    pub closed spec fn store(&self) -> Contents {
        self.db.contents()
    }

    /// A service over `db`.
    pub fn new(db: S) -> (service: Self)
        ensures
            service.store() == db.contents(),
    {
        Service { db }
    }

    /// Hands the store back.
    pub fn into_storage(self) -> (db: S)
        ensures
            db.contents() == self.store(),
    {
        self.db
    }

    /// Reads `key` and answers with its value.
    pub fn get_by_key(&mut self, key: &str) -> (r: ApiResponse<GetResponse>)
        ensures
            exists|now: i64|
                {
                    &&& final(self).store() == after_read(old(self).store(), encode_utf8(key@), now)
                    &&& reply_of_value(r) == value_reply(
                        Ok(#[trigger] get_result(old(self).store(), encode_utf8(key@), now)),
                    )
                },
    {
        let ghost before = self.db.contents();
        let result = self.db.get(key.as_bytes());
        let ghost now = choose|now: i64|
            {
                &&& self.db.contents() == after_read(before, encode_utf8(key@), now)
                &&& lift_found(result) == Ok::<Option<Entry>, ErrorView>(
                    #[trigger] get_result(before, encode_utf8(key@), now),
                )
            };
        let r = get_by_key_response(result);
        proof {
            assert(self.store() == after_read(old(self).store(), encode_utf8(key@), now));
            assert(reply_of_value(r) == value_reply(
                Ok(get_result(old(self).store(), encode_utf8(key@), now)),
            ));
        }
        r
    }

    /// Lists the live keys that begin with the prefix of the query.
    pub fn get_all_keys(&mut self, query: &GetAllKeysQuery) -> (r: ApiResponse<GetAllKeysResponse>)
        ensures
            exists|now: i64|
                {
                    &&& final(self).store() == #[trigger] after_scan(
                        old(self).store(),
                        encode_utf8(query.prefix@),
                        now,
                    )
                    &&& listing_reply(old(self).store(), encode_utf8(query.prefix@), now, r)
                },
    {
        let ghost before = self.db.contents();
        let ghost prefix = encode_utf8(query.prefix@);
        let result = self.db.get_all_keys(query.prefix.as_str().as_bytes());
        let ghost now = choose|now: i64|
            {
                &&& self.db.contents() == #[trigger] after_scan(before, prefix, now)
                &&& scan_result(before, prefix, now, result)
            };
        let r = get_all_keys_response(result);
        proof {
            assert(self.store() == after_scan(old(self).store(), encode_utf8(query.prefix@), now));
            assert(listing_reply(old(self).store(), encode_utf8(query.prefix@), now, r));
        }
        r
    }

    /// Writes the value of the request under its key.
    pub fn set_key(&mut self, request: &SetRequest) -> (r: ApiResponse<OperationSuccessResponse>)
        ensures
            exists|now: i64|
                final(self).store() == #[trigger] after_set(
                    old(self).store(),
                    encode_utf8(request.key@),
                    request_entry(*request),
                    now,
                ),
            reply_of_done(r) == Ok::<bool, Seq<char>>(true),
    {
        let ghost before = self.db.contents();
        let value = set_key_value(request);
        let result = self.db.set(request.key.as_str().as_bytes(), &value);
        let ghost now = choose|now: i64|
            self.db.contents() == #[trigger] after_set(
                before,
                encode_utf8(request.key@),
                value@,
                now,
            );
        proof {
            assert(self.store() == after_set(
                old(self).store(),
                encode_utf8(request.key@),
                request_entry(*request),
                now,
            ));
        }
        done_response(result)
    }

    /// Removes `key`.
    pub fn delete_key(&mut self, key: &str) -> (r: ApiResponse<OperationSuccessResponse>)
        ensures
            final(self).store() == after_delete(old(self).store(), encode_utf8(key@)),
            reply_of_done(r) == Ok::<bool, Seq<char>>(true),
    {
        let result = self.db.delete(key.as_bytes());
        done_response(result)
    }

    /// Removes the keys in the range of the prefix of the request; all keys
    /// where the request has no body.
    pub fn delete_keys(&mut self, request: Option<DeleteKeysRequest>) -> (r: ApiResponse<
        OperationSuccessResponse,
    >)
        ensures
            final(self).store() == after_delete_prefix(
                old(self).store(),
                encode_utf8(request_prefix(request)),
            ),
            reply_of_done(r) == Ok::<bool, Seq<char>>(true),
    {
        let prefix = delete_keys_prefix(request);
        let result = self.db.delete_prefix(prefix.as_str().as_bytes());
        done_response(result)
    }

    /// Reads the ttl of `key`; a key that is not found reads as `-1`.
    pub fn get_ttl(&mut self, key: &str) -> (r: ApiResponse<GetTtlResponse>)
        ensures
            exists|now: i64|
                {
                    &&& final(self).store() == after_read(old(self).store(), encode_utf8(key@), now)
                    &&& reply_of_ttl(r) == ttl_reply(
                        #[trigger] get_ttl_result(old(self).store(), encode_utf8(key@), now),
                    )
                },
    {
        let ghost before = self.db.contents();
        let result = self.db.get_ttl(key.as_bytes());
        let ghost now = choose|now: i64|
            {
                &&& self.db.contents() == after_read(before, encode_utf8(key@), now)
                &&& lift(result) == #[trigger] get_ttl_result(before, encode_utf8(key@), now)
            };
        let r = get_ttl_response(result);
        proof {
            assert(self.store() == after_read(old(self).store(), encode_utf8(key@), now));
            assert(reply_of_ttl(r) == ttl_reply(
                get_ttl_result(old(self).store(), encode_utf8(key@), now),
            ));
        }
        r
    }

    /// Writes the ttl of `key` anew.
    pub fn set_ttl(&mut self, key: &str, request: &SetTtlRequest) -> (r: ApiResponse<
        OperationSuccessResponse,
    >)
        ensures
            exists|now: i64|
                final(self).store() == #[trigger] after_update_ttl(
                    old(self).store(),
                    encode_utf8(key@),
                    request.ttl,
                    now,
                ),
            reply_of_done(r) == done_reply(update_ttl_result(old(self).store(), encode_utf8(key@))),
    {
        let ghost before = self.db.contents();
        let result = self.db.update_ttl(key.as_bytes(), request.ttl);
        let ghost now = choose|now: i64|
            self.db.contents() == #[trigger] after_update_ttl(
                before,
                encode_utf8(key@),
                request.ttl,
                now,
            );
        proof {
            assert(self.store() == after_update_ttl(
                old(self).store(),
                encode_utf8(key@),
                request.ttl,
                now,
            ));
        }
        done_response(result)
    }

    /// Adds the value of the request to the counter under `key`.
    pub fn increment(&mut self, key: &str, request: &IncrementRequest) -> (r: ApiResponse<
        IncrementResponse,
    >)
        ensures
            final(self).store() == after_counter(
                old(self).store(),
                encode_utf8(key@),
                request.value,
                request.default,
                true,
            ),
            reply_of_counter(r) == counter_reply(
                counter_result(
                    old(self).store(),
                    encode_utf8(key@),
                    request.value,
                    request.default,
                    true,
                ),
            ),
    {
        let result = self.db.increment(key.as_bytes(), request.value, request.default);
        counter_response(result)
    }

    /// Subtracts the value of the request from the counter under `key`.
    pub fn decrement(&mut self, key: &str, request: &IncrementRequest) -> (r: ApiResponse<
        IncrementResponse,
    >)
        ensures
            final(self).store() == after_counter(
                old(self).store(),
                encode_utf8(key@),
                request.value,
                request.default,
                false,
            ),
            reply_of_counter(r) == counter_reply(
                counter_result(
                    old(self).store(),
                    encode_utf8(key@),
                    request.value,
                    request.default,
                    false,
                ),
            ),
    {
        let result = self.db.decrement(key.as_bytes(), request.value, request.default);
        counter_response(result)
    }
}

} // verus!
