//! What holds of texts: their order, their notations, and the words for errors.

use crate::api;
use crate::error;
use crate::error::ErrorView;
use crate::lifecycle;
use crate::realm;
use crate::realm::RealmView;
use crate::text;
use vstd::arithmetic::div_mod::lemma_div_denominator;
use vstd::arithmetic::power;
use vstd::prelude::*;

verus! {

/// One text comes before another exactly where they agree up to some place at
/// which the first ends, or has the lesser character, and the second goes on.
pub proof fn law_order_is_by_first_difference(a: Seq<char>, b: Seq<char>)
    ensures
        text::precedes(a, b) <==> exists|k: int|
            #![trigger a.take(k)]
            0 <= k <= a.len() && k < b.len() && a.take(k) == b.take(k) && (k < a.len() ==> (
            a[k] as int) < b[k] as int),
    decreases a.len(),
{
    if a.len() == 0 || b.len() == 0 || a[0] != b[0] {
        assert(a.take(0) =~= b.take(0));
        if exists|k: int|
            #![trigger a.take(k)]
            0 <= k <= a.len() && k < b.len() && a.take(k) == b.take(k) && (k < a.len() ==> (
            a[k] as int) < b[k] as int) {
            let k = choose|k: int|
                #![trigger a.take(k)]
                0 <= k <= a.len() && k < b.len() && a.take(k) == b.take(k) && (k < a.len() ==> (
                a[k] as int) < b[k] as int);
            if k > 0 {
                assert(a.take(k)[0] == b.take(k)[0]);
            }
        }
    } else {
        let x = a.drop_first();
        let y = b.drop_first();
        law_order_is_by_first_difference(x, y);
        if text::precedes(a, b) {
            let k = choose|k: int|
                #![trigger x.take(k)]
                0 <= k <= x.len() && k < y.len() && x.take(k) == y.take(k) && (k < x.len() ==> (
                x[k] as int) < y[k] as int);
            assert(a.take(k + 1) =~= seq![a[0]] + x.take(k));
            assert(b.take(k + 1) =~= seq![b[0]] + y.take(k));
        }
        if exists|k: int|
            #![trigger a.take(k)]
            0 <= k <= a.len() && k < b.len() && a.take(k) == b.take(k) && (k < a.len() ==> (
            a[k] as int) < b[k] as int) {
            let k = choose|k: int|
                #![trigger a.take(k)]
                0 <= k <= a.len() && k < b.len() && a.take(k) == b.take(k) && (k < a.len() ==> (
                a[k] as int) < b[k] as int);
            assert(k > 0);
            assert(x.take(k - 1) =~= a.take(k).drop_first());
            assert(y.take(k - 1) =~= b.take(k).drop_first());
        }
    }
}

/// Decimal notation has digits alone, no zero in front of others, and the value
/// of the number: its last digit is the remainder by ten, and the rest writes
/// the quotient.
pub proof fn law_decimal_notation(n: nat)
    ensures
        text::decimal(n).len() > 0,
        forall|i: int|
            0 <= i < text::decimal(n).len() ==> 48 <= (#[trigger] text::decimal(n)[i]) as int <= 57,
        text::decimal(n)[0] as int == 48 ==> n == 0 && text::decimal(n).len() == 1,
        text::decimal(n).last() as int == 48 + n % 10,
        n >= 10 ==> text::decimal(n).drop_last() == text::decimal(n / 10),
        n < 10 ==> text::decimal(n).len() == 1,
    decreases n,
{
    if n >= 10 {
        law_decimal_notation(n / 10);
        assert(text::decimal(n).drop_last() =~= text::decimal(n / 10));
        assert(text::decimal(n)[0] == text::decimal(n / 10)[0]);
        assert forall|i: int| 0 <= i < text::decimal(n).len() implies 48 <= (#[trigger] text::decimal(
            n,
        )[i]) as int <= 57 by {
            if i < text::decimal(n).len() - 1 {
                assert(text::decimal(n)[i] == text::decimal(n / 10)[i]);
            }
        }
    }
}

/// The value of a hexadecimal digit in lower case.
pub open spec fn hex_value(c: char) -> int {
    if c as int <= 57 {
        c as int - 48
    } else {
        c as int - 87
    }
}

/// Hexadecimal notation has two digits for each byte, the higher first, in lower
/// case.
pub proof fn law_hexadecimal_notation(bytes: Seq<u8>)
    ensures
        text::hex(bytes).len() == 2 * bytes.len(),
        forall|i: int|
            0 <= i < text::hex(bytes).len() ==> {
                ||| 48 <= (#[trigger] text::hex(bytes)[i]) as int <= 57
                ||| 97 <= text::hex(bytes)[i] as int <= 102
            },
        forall|i: int|
            0 <= i < bytes.len() ==> 16 * hex_value(text::hex(bytes)[2 * i]) + hex_value(
                text::hex(bytes)[2 * i + 1],
            ) == #[trigger] bytes[i],
{
    assert forall|i: int| 0 <= i < bytes.len() implies 16 * hex_value(text::hex(bytes)[2 * i])
        + hex_value(text::hex(bytes)[2 * i + 1]) == #[trigger] bytes[i] by {
        assert((2 * i) / 2 == i && (2 * i) % 2 == 0);
        assert((2 * i + 1) / 2 == i && (2 * i + 1) % 2 == 1);
    }
}

/// The least significant byte of a number comes first: the byte at `i` is that of
/// the number divided by the `i`-th power of 256.
pub proof fn law_little_endian_bytes(n: nat, len: nat)
    ensures
        text::little_endian(n, len).len() == len,
        forall|i: int|
            0 <= i < len ==> #[trigger] text::little_endian(n, len)[i] as int == (n as int
                / power::pow(256, i as nat)) % 256,
    decreases len,
{
    if len > 0 {
        let rest = (len - 1) as nat;
        law_little_endian_bytes(n / 256, rest);
        assert forall|i: int| 0 <= i < len implies #[trigger] text::little_endian(n, len)[i] as int
            == (n as int / power::pow(256, i as nat)) % 256 by {
            if i == 0 {
                reveal(power::pow);
                assert(power::pow(256, 0) == 1);
            } else {
                let j = (i - 1) as nat;
                assert(text::little_endian(n, len)[i] == text::little_endian(n / 256, rest)[i - 1]);
                assert(power::pow(256, i as nat) == 256 * power::pow(256, j)) by {
                    reveal(power::pow);
                }
                power::lemma_pow_positive(256, j);
                lemma_div_denominator(n as int, 256, power::pow(256, j));
            }
        }
    }
}

/// What is said of an error: words for its kind, then what it holds.
pub proof fn law_errors_say_what_they_hold(a: Seq<char>, b: Seq<char>, m: u64, n: u64)
    ensures
        error::error_text(ErrorView::InvalidRealm(a)) == "invalid realm: "@ + a,
        error::error_text(ErrorView::RealmMismatch { expected: a, actual: b })
            == "database belongs to realm '"@ + b + "', not '"@ + a + "'"@,
        error::error_text(ErrorView::InvalidServiceGraph(a)) == "invalid service graph: "@ + a,
        error::error_text(ErrorView::InvalidTransition { from: a, to: b })
            == "runtime transition from "@ + a + " to "@ + b + " is not allowed"@,
        error::error_text(ErrorView::InvalidOperation(a)) == "invalid operation: "@ + a,
        error::error_text(ErrorView::RevisionConflict { expected: m, actual: n })
            == "revision conflict: expected "@ + text::decimal(m as nat)
            + ", current revision is "@ + text::decimal(n as nat),
        error::error_text(ErrorView::ChecksumMismatch)
            == "latest snapshot failed checksum validation"@,
        error::error_text(ErrorView::LockPoisoned) == "runtime state lock is poisoned"@,
        error::error_text(ErrorView::Storage(a)) == "storage error: "@ + a,
        error::error_text(ErrorView::Serialization(a)) == "serialization error: "@ + a,
{
}

/// An error is answered by its kind alone: what the caller asked wrongly as a bad
/// request, what the node's state forbids as a conflict, a spoilt snapshot as
/// unavailable, and the rest as an internal error.
pub proof fn law_errors_are_answered_by_kind(error: ErrorView)
    ensures
        error is InvalidRealm || error is InvalidServiceGraph || error is InvalidOperation <==>
            api::error_status(error) == 400,
        error is RevisionConflict || error is InvalidTransition || error is RealmMismatch <==>
            api::error_status(error) == 409,
        error is LockPoisoned || error is Storage || error is Serialization <==>
            api::error_status(error) == 500,
        error is ChecksumMismatch <==> api::error_status(error) == 503,
        api::error_status(error) == 400 ==> api::error_code(error) == "invalid_request"@,
        api::error_status(error) == 500 ==> api::error_code(error) == "internal_error"@,
        api::error_status(error) == 503 ==> api::error_code(error) == "integrity_failure"@,
        error is RevisionConflict ==> api::error_code(error) == "revision_conflict"@,
        error is InvalidTransition ==> api::error_code(error) == "invalid_transition"@,
        error is RealmMismatch ==> api::error_code(error) == "realm_mismatch"@,
{
}

/// Operation names are the texts of 1 to 64 lowercase letters, digits, hyphens,
/// dots and underscores, told by their code points; another name is refused with
/// these words.
pub proof fn law_operation_names(name: Seq<char>)
    ensures
        lifecycle::is_operation(name) <==> 0 < name.len() < 65 && !exists|i: int|
            0 <= i < name.len() && {
                let c = (#[trigger] name[i]) as int;
                !(97 <= c <= 122 || 48 <= c <= 57 || c == 45 || c == 46 || c == 95)
            },
        lifecycle::operation_error() == ErrorView::InvalidOperation(
            "operation names must use 1-64 lowercase letters, digits, dots, hyphens, or underscores"@,
        ),
{
    if 0 < name.len() < 65 && !exists|i: int|
        0 <= i < name.len() && {
            let c = (#[trigger] name[i]) as int;
            !(97 <= c <= 122 || 48 <= c <= 57 || c == 45 || c == 46 || c == 95)
        } {
        assert forall|i: int| 0 <= i < name.len() implies lifecycle::is_operation_char(
            #[trigger] name[i],
        ) by {}
    }
    if lifecycle::is_operation(name) {
        assert forall|i: int| 0 <= i < name.len() implies {
            let c = (#[trigger] name[i]) as int;
            97 <= c <= 122 || 48 <= c <= 57 || c == 45 || c == 46 || c == 95
        } by {
            assert(lifecycle::is_operation_char(name[i]));
        }
    }
}

/// A text names the live realm if it is `live`, and a laboratory if it is `lab:`
/// and 1 to 32 lowercase letters, digits or hyphens, told by their code points;
/// what is said of another depends on whether it begins with `lab:`.
pub proof fn law_realm_names(name: Seq<char>, id: Seq<char>)
    ensures
        realm::parse_realm("live"@) == Ok::<_, ErrorView>(RealmView::Live),
        realm::parse_realm(name) == Ok::<_, ErrorView>(RealmView::Live) ==> name == "live"@,
        realm::parse_realm(name) matches Ok(RealmView::Lab(found)) ==> name == "lab:"@ + found,
        realm::parse_realm("lab:"@ + id) == if 0 < id.len() < 33 && !exists|i: int|
            0 <= i < id.len() && {
                let c = (#[trigger] id[i]) as int;
                !(97 <= c <= 122 || 48 <= c <= 57 || c == 45)
            } {
            Ok::<_, ErrorView>(RealmView::Lab(id))
        } else {
            Err(
                ErrorView::InvalidRealm(
                    "lab identifiers must contain 1-32 lowercase letters, digits, or hyphens"@,
                ),
            )
        },
        name != "live"@ && !"lab:"@.is_prefix_of(name) ==> realm::parse_realm(name) == Err::<
            RealmView,
            _,
        >(ErrorView::InvalidRealm("use 'live' or 'lab:<identifier>'"@)),
{
    reveal_strlit("live");
    reveal_strlit("lab:");
    if "lab:"@.is_prefix_of(name) {
        assert(name =~= "lab:"@ + name.skip(4));
    }
    let lab = "lab:"@ + id;
    assert("live"@[1] == 'i' && "lab:"@[1] == 'a');
    assert(lab[1] == 'a');
    assert(lab.subrange(0, 4) =~= "lab:"@);
    assert("lab:"@.is_prefix_of(lab));
    assert(lab.skip(4) =~= id);
    if 0 < id.len() < 33 && !exists|i: int|
        0 <= i < id.len() && {
            let c = (#[trigger] id[i]) as int;
            !(97 <= c <= 122 || 48 <= c <= 57 || c == 45)
        } {
        assert forall|i: int| 0 <= i < id.len() implies realm::is_lab_char(#[trigger] id[i]) by {}
    }
    if realm::is_lab_id(id) {
        assert forall|i: int| 0 <= i < id.len() implies {
            let c = (#[trigger] id[i]) as int;
            97 <= c <= 122 || 48 <= c <= 57 || c == 45
        } by {
            assert(realm::is_lab_char(id[i]));
        }
    }
}

/// The storage key of the live realm is `live`, that of a laboratory its
/// identifier after `lab:`.
pub proof fn law_storage_keys(id: Seq<char>)
    ensures
        realm::storage_key(RealmView::Live) == "live"@,
        realm::storage_key(RealmView::Lab(id)) == "lab:"@ + id,
{
}

} // verus!
