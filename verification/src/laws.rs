//! Properties of the library that relate several operations or hold of every
//! input.
use vstd::prelude::*;

use crate::app::commands::{added_command, placeholder, substitute_params};
use crate::display::table_row;
use crate::app::config::{
    lists_all, distinct_keys, entries_map, initial_config, with_commands, AppConfigView, Command, CommandType,
    CommandView,
};
use crate::text::{decimal, digit_char, replace_all, trim_char, trim_end_char, trim_start_char};

verus! {

/// A command that was just added is the one found under its name.
pub proof fn law_get_after_add(v: AppConfigView, c: CommandView)
    ensures
        with_commands(v, v.commands.insert(c.name, c)).commands.contains_key(c.name),
        with_commands(v, v.commands.insert(c.name, c)).commands[c.name] == c,
{
}

/// Adding a command changes nothing but the entry under its name.
pub proof fn law_add_keeps_others(v: AppConfigView, c: CommandView, k: Seq<char>)
    requires
        k != c.name,
    ensures
        with_commands(v, v.commands.insert(c.name, c)).commands.contains_key(k)
            == v.commands.contains_key(k),
        with_commands(v, v.commands.insert(c.name, c)).commands[k] == v.commands[k],
        with_commands(v, v.commands.insert(c.name, c)).app == v.app,
        with_commands(v, v.commands.insert(c.name, c)).version == v.version,
        with_commands(v, v.commands.insert(c.name, c)).source == v.source,
{
}

/// Adding a command twice under one name leaves only the second.
pub proof fn law_add_overwrites(v: AppConfigView, c1: CommandView, c2: CommandView)
    requires
        c1.name == c2.name,
    ensures
        with_commands(
            with_commands(v, v.commands.insert(c1.name, c1)),
            v.commands.insert(c1.name, c1).insert(c2.name, c2),
        ) == with_commands(v, v.commands.insert(c2.name, c2)),
{
    assert(v.commands.insert(c1.name, c1).insert(c2.name, c2) =~= v.commands.insert(c2.name, c2));
}

/// After a command is deleted, nothing is found under its name.
pub proof fn law_delete_removes(v: AppConfigView, name: Seq<char>)
    ensures
        !with_commands(v, v.commands.remove(name)).commands.contains_key(name),
{
}

/// Deleting a command that was added under a name not used before gives back
/// the configuration as it was.
pub proof fn law_delete_undoes_add(v: AppConfigView, c: CommandView)
    requires
        !v.commands.contains_key(c.name),
    ensures
        with_commands(
            with_commands(v, v.commands.insert(c.name, c)),
            v.commands.insert(c.name, c).remove(c.name),
        ) == v,
{
    assert(v.commands.insert(c.name, c).remove(c.name) =~= v.commands);
}

/// Deleting twice is deleting once.
pub proof fn law_delete_idempotent(v: AppConfigView, name: Seq<char>)
    ensures
        v.commands.remove(name).remove(name) == v.commands.remove(name),
{
    assert(v.commands.remove(name).remove(name) =~= v.commands.remove(name));
}

/// A new configuration holds no command.
pub proof fn law_new_is_empty()
    ensures
        initial_config().commands.len() == 0,
        initial_config().commands.dom() == Set::<Seq<char>>::empty(),
{
}

/// A configuration rebuilt from the entries it hands out, with its own
/// section, version and source, is the configuration it was.
pub proof fn law_entries_restore(v: AppConfigView, es: Seq<(String, Command)>)
    requires
        distinct_keys(es),
        entries_map(es) == v.commands,
    ensures
        (AppConfigView {
            app: v.app,
            version: v.version,
            source: v.source,
            commands: entries_map(es),
        }) == v,
{
}

/// A listing of the commands holds every stored command.
pub proof fn law_listing_complete(m: Map<Seq<char>, CommandView>, cs: Seq<CommandView>, k: Seq<char>)
    requires
        lists_all(m, cs),
        m.contains_key(k),
    ensures
        exists|i: int| 0 <= i < cs.len() && cs[i] == m[k],
{
    let ks = choose|ks: Seq<Seq<char>>|
        {
            &&& ks.len() == cs.len()
            &&& ks.no_duplicates()
            &&& forall|i: int| 0 <= i < cs.len() ==> #[trigger] m.contains_key(ks[i]) && m[ks[i]] == cs[i]
        };
    ks.unique_seq_to_set();
    assert(ks.to_set().subset_of(m.dom())) by {
        assert forall|x: Seq<char>| ks.to_set().contains(x) implies m.dom().contains(x) by {
            let i = choose|i: int| 0 <= i < ks.len() && ks[i] == x;
            assert(m.contains_key(ks[i]));
        }
    }
    if !ks.to_set().contains(k) {
        assert(ks.to_set().subset_of(m.dom().remove(k)));
        vstd::set_lib::lemma_len_subset(ks.to_set(), m.dom().remove(k));
        assert(false);
    }
    let i = choose|i: int| 0 <= i < ks.len() && ks[i] == k;
    assert(m.contains_key(ks[i]));
}

/// `pat` occurs in `s` at some position.
pub open spec fn occurs_in(s: Seq<char>, pat: Seq<char>) -> bool {
    exists|i: int| 0 <= i && i + pat.len() <= s.len() && #[trigger] s.subrange(i, i + pat.len()) == pat
}

/// Replacing a pattern that does not occur changes nothing.
pub proof fn law_replace_absent(s: Seq<char>, pat: Seq<char>, rep: Seq<char>)
    requires
        pat.len() > 0,
        !occurs_in(s, pat),
    ensures
        replace_all(s, pat, rep) == s,
    decreases s.len(),
{
    if s.len() >= pat.len() {
        assert(s.take(pat.len() as int) =~= s.subrange(0int, 0int + pat.len()));
        assert(s.subrange(0int, 0int + pat.len()) != pat);
        let t = s.drop_first();
        assert forall|i: int| 0 <= i && i + pat.len() <= t.len() implies #[trigger] t.subrange(
            i,
            i + pat.len(),
        ) != pat by {
            assert(t.subrange(i, i + pat.len()) =~= s.subrange(i + 1, i + 1 + pat.len()));
        }
        law_replace_absent(t, pat, rep);
        assert(seq![s[0]] + t =~= s);
        assert(replace_all(s, pat, rep) == seq![s[0]] + replace_all(t, pat, rep));
    }
}

/// A text without `$` is run as it is stored, whatever the parameters.
pub proof fn law_no_placeholder_unchanged(original: Seq<char>, params: Seq<Seq<char>>)
    requires
        !original.contains('$'),
    ensures
        substitute_params(original, params) == original,
    decreases params.len(),
{
    if params.len() > 0 {
        let last = (params.len() - 1) as nat;
        law_no_placeholder_unchanged(original, params.take(last as int));
        let pat = placeholder(last);
        assert(pat[0] == '$');
        assert forall|i: int| 0 <= i && i + pat.len() <= original.len() implies #[trigger] original.subrange(
            i,
            i + pat.len(),
        ) != pat by {
            assert(original.subrange(i, i + pat.len())[0] == original[i]);
        }
        law_replace_absent(original, pat, params[last as int]);
    }
}

/// With no parameter, a stored text is run as it is.
pub proof fn law_no_params_unchanged(original: Seq<char>)
    ensures
        substitute_params(original, Seq::empty()) == original,
{
}

proof fn lemma_trim_start_shape(s: Seq<char>, c: char)
    ensures
        trim_start_char(s, c).len() > 0 ==> trim_start_char(s, c)[0] != c,
        trim_start_char(trim_start_char(s, c), c) == trim_start_char(s, c),
    decreases s.len(),
{
    if s.len() > 0 && s[0] == c {
        lemma_trim_start_shape(s.drop_first(), c);
    }
}

proof fn lemma_trim_end_shape(s: Seq<char>, c: char)
    ensures
        trim_end_char(s, c).len() > 0 ==> trim_end_char(s, c).last() != c,
        trim_end_char(trim_end_char(s, c), c) == trim_end_char(s, c),
        trim_end_char(s, c).len() <= s.len(),
        trim_end_char(s, c) == s.take(trim_end_char(s, c).len() as int),
    decreases s.len(),
{
    if s.len() > 0 && s.last() == c {
        lemma_trim_end_shape(s.drop_last(), c);
        assert(s.drop_last().take(trim_end_char(s, c).len() as int) =~= s.take(
            trim_end_char(s, c).len() as int,
        ));
    } else {
        assert(s.take(s.len() as int) =~= s);
    }
}

/// A trimmed text neither starts nor ends with the trimmed character, and
/// trimming it again changes nothing.
pub proof fn law_trim_idempotent(s: Seq<char>, c: char)
    ensures
        trim_char(s, c).len() > 0 ==> trim_char(s, c)[0] != c && trim_char(s, c).last() != c,
        trim_char(trim_char(s, c), c) == trim_char(s, c),
{
    let a = trim_start_char(s, c);
    lemma_trim_start_shape(s, c);
    lemma_trim_end_shape(a, c);
    let t = trim_end_char(a, c);
    if t.len() > 0 {
        assert(t[0] == a[0]);
    }
    // t does not start with c, so trimming its start leaves it as it is
    assert(trim_start_char(t, c) == t);
    lemma_trim_end_shape(t, c);
}

/// No character of `s` is `c`.
pub open spec fn free_of(s: Seq<char>, c: char) -> bool {
    forall|k: int| 0 <= k < s.len() ==> s[k] != c
}

/// The decimal digits, by value.
pub open spec fn digits() -> Seq<char> {
    seq!['0', '1', '2', '3', '4', '5', '6', '7', '8', '9']
}

/// `$` followed by the single digit `i`.
pub open spec fn marker(i: nat) -> Seq<char> {
    seq!['$', digits()[i as int]]
}

/// The text `pieces[0] slot(idx[0]) pieces[1] slot(idx[1]) ... pieces[m]`, where
/// the slot of index `k` is the parameter `params[k]` when `k < below`, and the
/// marker `$k` otherwise. With `below == 0` this is a text written with
/// placeholders; with `below` past every index, the same text filled in.
pub open spec fn fill_template(
    pieces: Seq<Seq<char>>,
    idx: Seq<nat>,
    params: Seq<Seq<char>>,
    below: nat,
) -> Seq<char>
    decreases idx.len(),
{
    if idx.len() == 0 || pieces.len() == 0 {
        if pieces.len() > 0 {
            pieces[0]
        } else {
            Seq::empty()
        }
    } else {
        pieces[0] + (if idx[0] < below {
            params[idx[0] as int]
        } else {
            marker(idx[0])
        }) + fill_template(pieces.drop_first(), idx.drop_first(), params, below)
    }
}

proof fn lemma_placeholder_is_marker(i: nat)
    requires
        i < 10,
    ensures
        placeholder(i) == marker(i),
        digits()[i as int] != '$',
{
    assert(decimal(i) == seq![digit_char(i)]);
    if i == 0 {
        assert(digits()[0] == '0');
    } else if i == 1 {
        assert(digits()[1] == '1');
    } else if i == 2 {
        assert(digits()[2] == '2');
    } else if i == 3 {
        assert(digits()[3] == '3');
    } else if i == 4 {
        assert(digits()[4] == '4');
    } else if i == 5 {
        assert(digits()[5] == '5');
    } else if i == 6 {
        assert(digits()[6] == '6');
    } else if i == 7 {
        assert(digits()[7] == '7');
    } else if i == 8 {
        assert(digits()[8] == '8');
    } else {
        assert(digits()[9] == '9');
    }
    assert(placeholder(i) =~= marker(i));
}

proof fn lemma_digits_distinct(i: nat, j: nat)
    requires
        i < 10,
        j < 10,
        i != j,
    ensures
        digits()[i as int] != digits()[j as int],
{
    let d = digits();
    assert(d[0] == '0' && d[1] == '1' && d[2] == '2' && d[3] == '3' && d[4] == '4');
    assert(d[5] == '5' && d[6] == '6' && d[7] == '7' && d[8] == '8' && d[9] == '9');
}

/// A stretch free of the pattern's first character passes through a
/// replacement untouched.
proof fn lemma_replace_skip_free(x: Seq<char>, y: Seq<char>, pat: Seq<char>, rep: Seq<char>)
    requires
        pat.len() > 0,
        free_of(x, pat[0]),
    ensures
        replace_all(x + y, pat, rep) == x + replace_all(y, pat, rep),
    decreases x.len(),
{
    let s = x + y;
    if x.len() == 0 {
        assert(s =~= y);
    } else if s.len() < pat.len() {
        assert(y.len() < pat.len());
    } else {
        assert(s.take(pat.len() as int)[0] == x[0]);
        assert(s.take(pat.len() as int) != pat);
        assert(s.drop_first() =~= x.drop_first() + y);
        lemma_replace_skip_free(x.drop_first(), y, pat, rep);
        assert(seq![s[0]] + (x.drop_first() + replace_all(y, pat, rep)) =~= x + replace_all(
            y,
            pat,
            rep,
        ));
    }
}

/// A text free of the pattern's first character is left as it is.
proof fn lemma_replace_free(x: Seq<char>, pat: Seq<char>, rep: Seq<char>)
    requires
        pat.len() > 0,
        free_of(x, pat[0]),
    ensures
        replace_all(x, pat, rep) == x,
{
    lemma_replace_skip_free(x, Seq::empty(), pat, rep);
    assert(x + Seq::<char>::empty() =~= x);
    assert(x + replace_all(Seq::<char>::empty(), pat, rep) =~= x);
}

proof fn lemma_replace_at_pattern(y: Seq<char>, pat: Seq<char>, rep: Seq<char>)
    requires
        pat.len() > 0,
    ensures
        replace_all(pat + y, pat, rep) == rep + replace_all(y, pat, rep),
{
    let s = pat + y;
    assert(s.take(pat.len() as int) =~= pat);
    assert(s.skip(pat.len() as int) =~= y);
}

proof fn lemma_replace_other_marker(i: nat, j: nat, y: Seq<char>, rep: Seq<char>)
    requires
        i < 10,
        j < 10,
        i != j,
    ensures
        replace_all(marker(i) + y, marker(j), rep) == marker(i) + replace_all(y, marker(j), rep),
{
    lemma_digits_distinct(i, j);
    lemma_placeholder_is_marker(i);
    let s = marker(i) + y;
    let pat = marker(j);
    assert(s.take(2)[1] == digits()[i as int]);
    assert(s.take(pat.len() as int) != pat);
    let d = seq![digits()[i as int]];
    assert(s.drop_first() =~= d + y);
    lemma_replace_skip_free(d, y, pat, rep);
    assert(seq![s[0]] + (d + replace_all(y, pat, rep)) =~= marker(i) + replace_all(y, pat, rep));
}

/// Where every slot is filled in and neither pieces nor parameters hold `$`,
/// the text holds no `$`; and filling in more indices changes nothing.
proof fn lemma_filled_template(pieces: Seq<Seq<char>>, idx: Seq<nat>, params: Seq<Seq<char>>, below: nat)
    requires
        pieces.len() == idx.len() + 1,
        forall|k: int| 0 <= k < idx.len() ==> #[trigger] idx[k] < below && idx[k] < params.len(),
        forall|k: int| 0 <= k < pieces.len() ==> free_of(#[trigger] pieces[k], '$'),
        forall|k: int| 0 <= k < params.len() ==> free_of(#[trigger] params[k], '$'),
    ensures
        free_of(fill_template(pieces, idx, params, below), '$'),
        fill_template(pieces, idx, params, below + 1) == fill_template(pieces, idx, params, below),
    decreases idx.len(),
{
    if idx.len() > 0 {
        let ps = pieces.drop_first();
        let is = idx.drop_first();
        assert forall|k: int| 0 <= k < is.len() implies #[trigger] is[k] < below && is[k]
            < params.len() by {
            assert(is[k] == idx[k + 1]);
        }
        assert forall|k: int| 0 <= k < ps.len() implies free_of(#[trigger] ps[k], '$') by {
            assert(ps[k] == pieces[k + 1]);
        }
        lemma_filled_template(ps, is, params, below);
        assert(idx[0] < below);
        assert(free_of(pieces[0], '$'));
        assert(free_of(params[idx[0] as int], '$'));
    }
}

/// One filling step: replacing the placeholder of `s` by its parameter fills
/// in exactly the slots of index `s`.
proof fn lemma_fill_step(pieces: Seq<Seq<char>>, idx: Seq<nat>, params: Seq<Seq<char>>, s: nat)
    requires
        s < params.len(),
        pieces.len() == idx.len() + 1,
        forall|k: int| 0 <= k < idx.len() ==> #[trigger] idx[k] < 10 && idx[k] < params.len(),
        forall|k: int| 0 <= k < pieces.len() ==> free_of(#[trigger] pieces[k], '$'),
        forall|k: int| 0 <= k < params.len() ==> free_of(#[trigger] params[k], '$'),
    ensures
        replace_all(fill_template(pieces, idx, params, s), placeholder(s), params[s as int])
            == fill_template(pieces, idx, params, s + 1),
    decreases idx.len(),
{
    let pat = placeholder(s);
    let rep = params[s as int];
    assert(pat[0] == '$');
    if s >= 10 {
        lemma_filled_template(pieces, idx, params, s);
        lemma_replace_free(fill_template(pieces, idx, params, s), pat, rep);
        return;
    }
    lemma_placeholder_is_marker(s);
    if idx.len() == 0 {
        assert(free_of(pieces[0], '$'));
        lemma_replace_free(pieces[0], pat, rep);
        return;
    }
    let ps = pieces.drop_first();
    let is = idx.drop_first();
    assert forall|k: int| 0 <= k < is.len() implies #[trigger] is[k] < 10 && is[k]
        < params.len() by {
        assert(is[k] == idx[k + 1]);
    }
    assert forall|k: int| 0 <= k < ps.len() implies free_of(#[trigger] ps[k], '$') by {
        assert(ps[k] == pieces[k + 1]);
    }
    lemma_fill_step(ps, is, params, s);
    let rest = fill_template(ps, is, params, s);
    let rest2 = fill_template(ps, is, params, s + 1);
    let p0 = pieces[0];
    assert(free_of(p0, '$'));
    let slot = if idx[0] < s {
        params[idx[0] as int]
    } else {
        marker(idx[0])
    };
    let slot2 = if idx[0] < s + 1 {
        params[idx[0] as int]
    } else {
        marker(idx[0])
    };
    assert(fill_template(pieces, idx, params, s) == p0 + slot + rest);
    assert(fill_template(pieces, idx, params, s + 1) == p0 + slot2 + rest2);
    assert(p0 + slot + rest =~= p0 + (slot + rest));
    lemma_replace_skip_free(p0, slot + rest, pat, rep);
    if idx[0] < s {
        assert(free_of(params[idx[0] as int], '$'));
        lemma_replace_skip_free(slot, rest, pat, rep);
    } else if idx[0] == s {
        lemma_replace_at_pattern(rest, pat, rep);
    } else {
        lemma_replace_other_marker(idx[0], s, rest, rep);
    }
    assert(p0 + (slot2 + rest2) =~= p0 + slot2 + rest2);
}

proof fn lemma_fill_prefix(pieces: Seq<Seq<char>>, idx: Seq<nat>, params: Seq<Seq<char>>, s: nat)
    requires
        s <= params.len(),
        pieces.len() == idx.len() + 1,
        forall|k: int| 0 <= k < idx.len() ==> #[trigger] idx[k] < 10 && idx[k] < params.len(),
        forall|k: int| 0 <= k < pieces.len() ==> free_of(#[trigger] pieces[k], '$'),
        forall|k: int| 0 <= k < params.len() ==> free_of(#[trigger] params[k], '$'),
    ensures
        substitute_params(fill_template(pieces, idx, params, 0), params.take(s as int))
            == fill_template(pieces, idx, params, s),
    decreases s,
{
    if s > 0 {
        let t = (s - 1) as nat;
        lemma_fill_prefix(pieces, idx, params, t);
        assert(params.take(s as int).take(t as int) =~= params.take(t as int));
        assert(params.take(s as int)[t as int] == params[t as int]);
        lemma_fill_step(pieces, idx, params, t);
    }
}

/// Running a stored command fills in every placeholder `$0` ... `$9` that its
/// text holds, every occurrence, with the parameter of that index, and leaves
/// the rest of the text as it is: a text written as pieces around
/// placeholders comes out as the same pieces around the parameters. (The
/// pieces and parameters hold no `$`; a placeholder of two or more digits is
/// not covered, since the placeholder of its leading digits is filled first,
/// as the original does.)
pub proof fn law_fill_placeholders(pieces: Seq<Seq<char>>, idx: Seq<nat>, params: Seq<Seq<char>>)
    requires
        pieces.len() == idx.len() + 1,
        forall|k: int| 0 <= k < idx.len() ==> #[trigger] idx[k] < 10 && idx[k] < params.len(),
        forall|k: int| 0 <= k < pieces.len() ==> free_of(#[trigger] pieces[k], '$'),
        forall|k: int| 0 <= k < params.len() ==> free_of(#[trigger] params[k], '$'),
    ensures
        substitute_params(fill_template(pieces, idx, params, 0), params) == fill_template(
            pieces,
            idx,
            params,
            params.len(),
        ),
{
    lemma_fill_prefix(pieces, idx, params, params.len());
    assert(params.take(params.len() as int) =~= params);
}

/// `t` is `s` with every leading and every trailing `c` removed, and nothing
/// else: a stretch of `s` whose cut-off ends are all `c` and that, unless it
/// is empty, neither starts nor ends with `c` (an empty `t` means that `s` is
/// all `c`).
pub open spec fn is_trim_of(t: Seq<char>, s: Seq<char>, c: char) -> bool {
    exists|a: int, b: int|
        {
            &&& 0 <= a <= b <= s.len()
            &&& t == s.subrange(a, b)
            &&& forall|k: int| 0 <= k < a ==> s[k] == c
            &&& forall|k: int| b <= k < s.len() ==> s[k] == c
            &&& a < b ==> s[a] != c && s[b - 1] != c
        }
}

proof fn lemma_trim_start_at(s: Seq<char>, c: char) -> (a: int)
    ensures
        0 <= a <= s.len(),
        trim_start_char(s, c) == s.subrange(a, s.len() as int),
        forall|k: int| 0 <= k < a ==> s[k] == c,
        a < s.len() ==> s[a] != c,
    decreases s.len(),
{
    if s.len() > 0 && s[0] == c {
        let a1 = lemma_trim_start_at(s.drop_first(), c);
        assert(s.drop_first().subrange(a1, s.drop_first().len() as int) =~= s.subrange(
            a1 + 1,
            s.len() as int,
        ));
        assert forall|k: int| 0 <= k < a1 + 1 implies s[k] == c by {
            if k > 0 {
                assert(s[k] == s.drop_first()[k - 1]);
            }
        }
        a1 + 1
    } else {
        assert(s.subrange(0, s.len() as int) =~= s);
        0
    }
}

proof fn lemma_trim_end_at(s: Seq<char>, c: char) -> (b: int)
    ensures
        0 <= b <= s.len(),
        trim_end_char(s, c) == s.subrange(0, b),
        forall|k: int| b <= k < s.len() ==> s[k] == c,
        b > 0 ==> s[b - 1] != c,
    decreases s.len(),
{
    if s.len() > 0 && s.last() == c {
        let b1 = lemma_trim_end_at(s.drop_last(), c);
        assert(s.drop_last().subrange(0, b1) =~= s.subrange(0, b1));
        assert forall|k: int| b1 <= k < s.len() implies s[k] == c by {
            if k < s.len() - 1 {
                assert(s[k] == s.drop_last()[k]);
            }
        }
        b1
    } else {
        assert(s.subrange(0, s.len() as int) =~= s);
        s.len() as int
    }
}

/// Trimming a character removes exactly its leading and trailing runs.
pub proof fn law_trim_char_exact(s: Seq<char>, c: char)
    ensures
        is_trim_of(trim_char(s, c), s, c),
{
    let a = lemma_trim_start_at(s, c);
    let m = s.subrange(a, s.len() as int);
    let b = lemma_trim_end_at(m, c);
    assert(trim_char(s, c) =~= s.subrange(a, a + b));
    assert forall|k: int| a + b <= k < s.len() implies s[k] == c by {
        assert(m[k - a] == s[k]);
    }
    if 0 < b {
        assert(m[b - 1] == s[a + b - 1]);
    }
    assert(0 <= a <= a + b <= s.len());
}

/// A command added from the command line keeps its name, prefix and suffix
/// as given, is of type `String`, and has as text the given text with its
/// surrounding single quotes removed and then its surrounding double quotes:
/// nothing else of the text is changed.
pub proof fn law_added_command(
    name: Seq<char>,
    detail: Seq<char>,
    prefix: Option<Seq<char>>,
    suffix: Option<Seq<char>>,
)
    ensures
        added_command(name, detail, prefix, suffix).command_type == CommandType::String,
        added_command(name, detail, prefix, suffix).name == name,
        added_command(name, detail, prefix, suffix).prefix == prefix,
        added_command(name, detail, prefix, suffix).suffix == suffix,
        exists|m: Seq<char>|
            is_trim_of(m, detail, '\'') && is_trim_of(
                added_command(name, detail, prefix, suffix).detail,
                m,
                '"',
            ),
{
    law_trim_char_exact(detail, '\'');
    law_trim_char_exact(trim_char(detail, '\''), '"');
}

/// A text that neither starts nor ends with a quote is stored as it is given.
pub proof fn law_added_command_unquoted(
    name: Seq<char>,
    detail: Seq<char>,
    prefix: Option<Seq<char>>,
    suffix: Option<Seq<char>>,
)
    requires
        detail.len() > 0 ==> detail[0] != '\'' && detail[0] != '"' && detail.last() != '\''
            && detail.last() != '"',
    ensures
        added_command(name, detail, prefix, suffix).detail == detail,
{
    let a = lemma_trim_start_at(detail, '\'');
    if a > 0 {
        assert(detail[0] == '\'');
    }
    let b = lemma_trim_end_at(detail, '\'');
    if b < detail.len() {
        assert(detail[detail.len() - 1] == '\'');
    }
    assert(detail.subrange(0, detail.len() as int) =~= detail);
    assert(trim_start_char(detail, '\'') == detail);
    assert(trim_char(detail, '\'') == detail);
    let a2 = lemma_trim_start_at(detail, '"');
    if a2 > 0 {
        assert(detail[0] == '"');
    }
    let b2 = lemma_trim_end_at(detail, '"');
    if b2 < detail.len() {
        assert(detail[detail.len() - 1] == '"');
    }
    assert(trim_start_char(detail, '"') == detail);
}

/// The row that lists a command holds, in order, its name, its type's name,
/// its text, its prefix and its suffix, an absent prefix or suffix as an
/// empty cell.
pub proof fn law_row_cells(c: CommandView)
    ensures
        table_row(c).len() == 5,
        table_row(c)[0] == c.name,
        c.command_type == CommandType::String ==> table_row(c)[1] == "String"@,
        c.command_type == CommandType::Shell ==> table_row(c)[1] == "Shell"@,
        table_row(c)[2] == c.detail,
        table_row(c)[3] == (match c.prefix {
            Some(p) => p,
            None => Seq::<char>::empty(),
        }),
        table_row(c)[4] == (match c.suffix {
            Some(s) => s,
            None => Seq::<char>::empty(),
        }),
{
}

} // verus!
