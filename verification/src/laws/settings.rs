//! What holds of the settings of a node.

use crate::config;
use crate::realm;
use crate::realm::RealmView;
use crate::text;
use std::path::PathBuf;
use vstd::prelude::*;

verus! {

/// The environment goes before the file and the file before the default, for
/// texts and for directories.
pub proof fn law_environment_goes_first(
    env: String,
    file: String,
    default: Seq<char>,
    env_dir: PathBuf,
    file_dir: PathBuf,
)
    ensures
        config::chosen_text(Some(env), Some(file), default) == env@,
        config::chosen_text(Some(env), None, default) == env@,
        config::chosen_text(None, Some(file), default) == file@,
        config::chosen_text(None, None, default) == default,
        config::chosen_directory(Some(env_dir), Some(file_dir)) == env_dir,
        config::chosen_directory(Some(env_dir), None) == env_dir,
        config::chosen_directory(None, Some(file_dir)) == file_dir,
        config::chosen_directory(None, None) == crate::paths::path_of("./var/scg"@),
{
}

/// How much history is kept is at least one, and is otherwise what the
/// environment counts, or what the file says where the environment counts
/// nothing, or the default where the file says nothing.
pub proof fn law_history_settings(
    env: Option<String>,
    file: Option<usize>,
    default: usize,
    n: usize,
)
    ensures
        config::chosen_count(env, file, default) >= 1,
        env is Some && config::parse_count(env->0@) == Some(n) ==> config::chosen_count(
            env,
            file,
            default,
        ) == if n == 0 { 1 } else { n as int },
        (env is None || config::parse_count(env->0@) is None) && file == Some(n)
            ==> config::chosen_count(env, file, default) == if n == 0 { 1 } else { n as int },
        (env is None || config::parse_count(env->0@) is None) && file is None && default == n
            ==> config::chosen_count(env, file, default) == if n == 0 { 1 } else { n as int },
{
}

/// Digits write a number by place: one more digit behind them is ten times the
/// number and the digit.
pub proof fn law_digits_count_by_place(digits: Seq<char>, d: nat)
    requires
        d < 10,
    ensures
        config::number(seq![]) == 0,
        config::number(digits.push((48 + d) as char)) == 10 * config::number(digits) + d,
{
    let longer = digits.push((48 + d) as char);
    assert(longer.drop_last() =~= digits);
}

/// A text counts a number exactly if it is digits that write the number, or these
/// after a plus sign, and the number fits.
pub proof fn law_counts_are_digits(text: Seq<char>, n: usize)
    ensures
        config::parse_count(text) == Some(n) <==> exists|digits: Seq<char>|
            {
                &&& text == digits || text == seq!['+'] + digits
                &&& digits.len() > 0
                &&& forall|i: int|
                    0 <= i < digits.len() ==> 48 <= (#[trigger] digits[i]) as int <= 57
                &&& #[trigger] config::number(digits) == n
            },
{
    if config::parse_count(text) == Some(n) {
        let digits = if text.len() > 0 && text[0] == '+' { text.skip(1) } else { text };
        if text.len() > 0 && text[0] == '+' {
            assert(text =~= seq!['+'] + digits);
        }
        assert(config::number(digits) == n);
    }
    if exists|digits: Seq<char>|
        {
            &&& text == digits || text == seq!['+'] + digits
            &&& digits.len() > 0
            &&& forall|i: int| 0 <= i < digits.len() ==> 48 <= (#[trigger] digits[i]) as int <= 57
            &&& #[trigger] config::number(digits) == n
        } {
        let digits = choose|digits: Seq<char>|
            {
                &&& text == digits || text == seq!['+'] + digits
                &&& digits.len() > 0
                &&& forall|i: int|
                    0 <= i < digits.len() ==> 48 <= (#[trigger] digits[i]) as int <= 57
                &&& #[trigger] config::number(digits) == n
            };
        assert(48 <= digits[0] as int <= 57);
        if text == digits {
            assert(text[0] != '+');
        } else {
            assert(text[0] == '+');
            assert(text.skip(1) =~= digits);
        }
        assert(config::are_digits(digits));
    }
}

/// A count is read back from its decimal notation, with a plus sign or without.
pub proof fn law_counts_read_back(n: usize)
    ensures
        config::parse_count(text::decimal(n as nat)) == Some(n),
        config::parse_count(seq!['+'] + text::decimal(n as nat)) == Some(n),
{
    let digits = text::decimal(n as nat);
    crate::laws::texts::law_decimal_notation(n as nat);
    lemma_number_of_decimal(n as nat);
    law_counts_are_digits(digits, n);
    law_counts_are_digits(seq!['+'] + digits, n);
    assert(config::number(digits) == n);
}

proof fn lemma_number_of_decimal(n: nat)
    ensures
        config::number(text::decimal(n)) == n,
    decreases n,
{
    let digits = text::decimal(n);
    if n < 10 {
        assert(digits.drop_last() =~= seq![]);
        assert(config::number(digits.drop_last()) == 0);
    } else {
        lemma_number_of_decimal(n / 10);
        assert(digits.drop_last() =~= text::decimal(n / 10));
    }
}

/// The database file of a realm that has a name is `live.db`, or `lab-`, the
/// identifier and `.db`.
pub proof fn law_database_files(id: Seq<char>)
    requires
        realm::is_lab_id(id),
    ensures
        config::database_file(RealmView::Live) == "live.db"@,
        config::database_file(RealmView::Lab(id)) == "lab-"@ + id + ".db"@,
{
    reveal_strlit("live");
    reveal_strlit("lab:");
    reveal_strlit("lab-");
    reveal_strlit(".db");
    reveal_strlit("live.db");
    assert(config::database_file(RealmView::Live) =~= "live.db"@);
    assert forall|i: int| 0 <= i < id.len() implies #[trigger] id[i] != ':' by {
        assert(realm::is_lab_char(id[i]));
    }
    assert(config::database_file(RealmView::Lab(id)) =~= "lab-"@ + id + ".db"@);
}

} // verus!
