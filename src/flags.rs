use vstd::prelude::*;

use crate::descriptor::Flag;
use crate::tokens::views;

verus! {

/// The character that marks a token as a flag.
pub const FLAG_PREFIX: char = '-';

/// One parsed flag: its identifier and the value given after it, if any.
pub struct FlagEntry {
    pub identifier: String,
    pub value: Option<String>,
}

/// The flags of one input line, in the order in which they were given.
/// Identifiers are distinct; a flag given without a value is present with
/// `None` as its value.
pub struct FlagMap {
    entries: Vec<FlagEntry>,
}

/// A fatal flaw in the flags of a line.
pub enum FlagError {
    /// The same identifier was given twice.
    DuplicateFlag(String),
    /// A flag was followed by a second value.
    DuplicateValue(String),
}

/// The spec-level form of a `FlagError`.
pub enum FlagFault {
    DuplicateFlag(Seq<char>),
    DuplicateValue(Seq<char>),
}

/// What a successful parse yields: the flags, and the value tokens that had
/// no flag before them and were dropped.
pub struct ParsedFlags {
    pub flags: FlagMap,
    pub dropped: Vec<String>,
}

/// The state of the flag scanner: the flags read so far and the dropped
/// value tokens. The flag awaiting a value, if any, is the last entry.
pub struct ScanState {
    pub entries: Seq<(Seq<char>, Option<Seq<char>>)>,
    pub dropped: Seq<Seq<char>>,
}

pub open spec fn opt_view(o: Option<String>) -> Option<Seq<char>> {
    match o {
        Some(s) => Some(s@),
        None => None,
    }
}

pub open spec fn entry_view(e: FlagEntry) -> (Seq<char>, Option<Seq<char>>) {
    (e.identifier@, opt_view(e.value))
}

impl FlagError {
    pub open spec fn view(&self) -> FlagFault {
        match self {
            FlagError::DuplicateFlag(s) => FlagFault::DuplicateFlag(s@),
            FlagError::DuplicateValue(s) => FlagFault::DuplicateValue(s@),
        }
    }
}

impl View for FlagMap {
    type V = Seq<(Seq<char>, Option<Seq<char>>)>;

    closed spec fn view(&self) -> Seq<(Seq<char>, Option<Seq<char>>)> {
        self.entries@.map_values(|e: FlagEntry| entry_view(e))
    }
}

/// The value recorded for `id` in `entries`: `None` when the flag is absent,
/// `Some(None)` when it is present without a value.
pub open spec fn lookup(entries: Seq<(Seq<char>, Option<Seq<char>>)>, id: Seq<char>) -> Option<
    Option<Seq<char>>,
>
    decreases entries.len(),
{
    if entries.len() == 0 {
        None
    } else if entries[0].0 == id {
        Some(entries[0].1)
    } else {
        lookup(entries.drop_first(), id)
    }
}

pub open spec fn has_flag(entries: Seq<(Seq<char>, Option<Seq<char>>)>, id: Seq<char>) -> bool {
    lookup(entries, id) is Some
}

pub open spec fn distinct_keys(entries: Seq<(Seq<char>, Option<Seq<char>>)>) -> bool {
    forall|i: int, j: int|
        0 <= i < j < entries.len() ==> #[trigger] entries[i].0 != #[trigger] entries[j].0
}

pub open spec fn is_flag_token(tok: Seq<char>, prefix: char) -> bool {
    tok.len() > 0 && tok[0] == prefix
}

/// One step of the scanner on token `tok`.
pub open spec fn scan_step(st: ScanState, tok: Seq<char>, prefix: char) -> Result<
    ScanState,
    FlagFault,
> {
    if is_flag_token(tok, prefix) {
        let id = tok.drop_first();
        if has_flag(st.entries, id) {
            Err(FlagFault::DuplicateFlag(id))
        } else {
            Ok(ScanState { entries: st.entries.push((id, None)), dropped: st.dropped })
        }
    } else if st.entries.len() == 0 {
        Ok(ScanState { entries: st.entries, dropped: st.dropped.push(tok) })
    } else {
        let held = st.entries.last();
        if held.1 is None {
            Ok(
                ScanState {
                    entries: st.entries.update(st.entries.len() - 1, (held.0, Some(tok))),
                    dropped: st.dropped,
                },
            )
        } else {
            Err(FlagFault::DuplicateValue(held.0))
        }
    }
}

/// The scanner run over all of `tokens`, stopping at the first fault.
pub open spec fn scan_flags(tokens: Seq<Seq<char>>, prefix: char) -> Result<ScanState, FlagFault>
    decreases tokens.len(),
{
    if tokens.len() == 0 {
        Ok(ScanState { entries: Seq::empty(), dropped: Seq::empty() })
    } else {
        match scan_flags(tokens.drop_last(), prefix) {
            Ok(st) => scan_step(st, tokens.last(), prefix),
            Err(e) => Err(e),
        }
    }
}

/// Every required flag of `flags` is present in `entries`.
pub open spec fn all_required_present(
    entries: Seq<(Seq<char>, Option<Seq<char>>)>,
    flags: Seq<Flag>,
) -> bool {
    forall|i: int| 0 <= i < flags.len() && #[trigger] flags[i].required ==> has_flag(entries, flags[i].identifier@)
}

/// Whether two strings hold the same characters.
pub fn same_text(a: &str, b: &str) -> (r: bool)
    ensures
        r == (a@ == b@),
{
    let n = a.unicode_len();
    if n != b.unicode_len() {
        return false;
    }
    let mut i: usize = 0;
    while i < n
        invariant
            n == a@.len() == b@.len(),
            i <= n,
            forall|j: int| 0 <= j < i ==> a@[j] == b@[j],
        decreases n - i,
    {
        if a.get_char(i) != b.get_char(i) {
            return false;
        }
        i = i + 1;
    }
    proof {
        assert(a@ =~= b@);
    }
    true
}

impl FlagMap {
    /// The index of the entry named `id`, if there is one.
    fn position(&self, id: &str) -> (r: Option<usize>)
        ensures
            r is None <==> !has_flag(self@, id@),
            r matches Some(k) ==> k < self@.len() && self@[k as int].0 == id@ && lookup(self@, id@)
                == Some(self@[k as int].1),
    {
        let n = self.entries.len();
        let mut k: usize = 0;
        proof {
            assert(self@.subrange(0, n as int) =~= self@);
        }
        while k < n
            invariant
                n == self@.len(),
                k <= n,
                lookup(self@, id@) == lookup(self@.subrange(k as int, n as int), id@),
            decreases n - k,
        {
            proof {
                assert(self@.subrange(k as int, n as int).drop_first() =~= self@.subrange(
                    k + 1,
                    n as int,
                ));
            }
            if same_text(self.entries[k].identifier.as_str(), id) {
                return Some(k);
            }
            k = k + 1;
        }
        None
    }

    /// Whether a flag named `id` was given.
    pub fn contains(&self, id: &str) -> (r: bool)
        ensures
            r == has_flag(self@, id@),
    {
        self.position(id).is_some()
    }

    /// The value given for `id`: `None` when the flag is absent, `Some(None)`
    /// when it is present without a value.
    pub fn get(&self, id: &str) -> (r: Option<Option<String>>)
        ensures
            r matches Some(v) ==> lookup(self@, id@) == Some(opt_view(v)),
            r is None ==> lookup(self@, id@) is None,
    {
        match self.position(id) {
            Some(k) => Some(self.entries[k].value.clone()),
            None => None,
        }
    }

    /// The flags, in the order in which they were given.
    pub fn entries(&self) -> (r: &Vec<FlagEntry>)
        ensures
            r@.map_values(|e: FlagEntry| entry_view(e)) == self@,
    {
        &self.entries
    }

    /// The number of flags given.
    pub fn len(&self) -> (r: usize)
        ensures
            r == self@.len(),
    {
        self.entries.len()
    }
}

proof fn lemma_key_present(entries: Seq<(Seq<char>, Option<Seq<char>>)>, id: Seq<char>, j: int)
    requires
        0 <= j < entries.len(),
        entries[j].0 == id,
    ensures
        has_flag(entries, id),
    decreases entries.len(),
{
    if entries[0].0 != id {
        lemma_key_present(entries.drop_first(), id, j - 1);
    }
}

proof fn lemma_fault_stays(toks: Seq<Seq<char>>, k: int, prefix: char)
    requires
        0 <= k <= toks.len(),
        scan_flags(toks.subrange(0, k), prefix) is Err,
    ensures
        scan_flags(toks, prefix) == scan_flags(toks.subrange(0, k), prefix),
    decreases toks.len(),
{
    if k == toks.len() {
        assert(toks.subrange(0, k) =~= toks);
    } else {
        assert(toks.drop_last().subrange(0, k) =~= toks.subrange(0, k));
        lemma_fault_stays(toks.drop_last(), k, prefix);
    }
}

/// Reads `-flag value` pairs from `tokens`, a line with its command name
/// removed. A token that starts with `prefix` names a flag; the token after
/// it, if it is no flag, is that flag's value. A value token before any flag
/// is dropped. Naming a flag twice, or giving a flag a second value, fails.
pub fn parse_flags(tokens: &[String], prefix: char) -> (r: Result<ParsedFlags, FlagError>)
    ensures
        match scan_flags(views(tokens@), prefix) {
            Ok(st) => r matches Ok(p) && p.flags@ == st.entries && views(p.dropped@) == st.dropped,
            Err(e) => r matches Err(err) && err.view() == e,
        },
        r matches Ok(p) ==> distinct_keys(p.flags@),
{
    let ghost toks = views(tokens@);
    let n = tokens.len();
    let mut flags = FlagMap { entries: Vec::new() };
    let mut dropped: Vec<String> = Vec::new();
    let mut i: usize = 0;
    proof {
        assert(toks.subrange(0, 0) =~= Seq::<Seq<char>>::empty());
        assert(flags@ =~= Seq::<(Seq<char>, Option<Seq<char>>)>::empty());
        assert(views(dropped@) =~= Seq::<Seq<char>>::empty());
    }
    while i < n
        invariant
            n == tokens@.len(),
            toks == views(tokens@),
            i <= n,
            scan_flags(toks.subrange(0, i as int), prefix) == Ok::<ScanState, FlagFault>(
                ScanState { entries: flags@, dropped: views(dropped@) },
            ),
            distinct_keys(flags@),
        decreases n - i,
    {
        let tok = &tokens[i];
        let t = tok.as_str();
        let len = t.unicode_len();
        let ghost before = ScanState { entries: flags@, dropped: views(dropped@) };
        proof {
            let s = toks.subrange(0, i + 1);
            assert(s.drop_last() =~= toks.subrange(0, i as int));
            assert(s.last() == tok@);
        }
        if len > 0 && t.get_char(0) == prefix {
            let id = String::from_str(t.substring_char(1, len));
            proof {
                assert(id@ =~= tok@.drop_first());
            }
            if flags.position(id.as_str()).is_some() {
                proof {
                    lemma_fault_stays(toks, i + 1, prefix);
                }
                return Err(FlagError::DuplicateFlag(id));
            }
            let ghost prev = flags@;
            flags.entries.push(FlagEntry { identifier: id, value: None });
            proof {
                assert(flags@ =~= prev.push((id@, None)));
                assert forall|a: int, b: int| 0 <= a < b < flags@.len() implies flags@[a].0
                    != flags@[b].0 by {
                    if b == prev.len() && flags@[a].0 == id@ {
                        lemma_key_present(prev, id@, a);
                    }
                }
            }
        } else if flags.entries.len() == 0 {
            let ghost prev = dropped@;
            dropped.push(tok.clone());
            proof {
                assert(views(dropped@) =~= views(prev).push(tok@));
            }
        } else {
            let last = flags.entries.len() - 1;
            if flags.entries[last].value.is_none() {
                let ghost prev = flags@;
                flags.entries[last].value = Some(tok.clone());
                proof {
                    assert(flags@ =~= prev.update(last as int, (prev[last as int].0, Some(tok@))));
                }
            } else {
                proof {
                    lemma_fault_stays(toks, i + 1, prefix);
                }
                return Err(FlagError::DuplicateValue(flags.entries[last].identifier.clone()));
            }
        }
        i = i + 1;
    }
    proof {
        assert(toks.subrange(0, n as int) =~= toks);
    }
    Ok(ParsedFlags { flags, dropped })
}

/// The index of the first flag of `required_flags` that is required and
/// absent from `parsed_flags`, or `None` when every required flag is there.
/// Flags that `parsed_flags` holds beyond those are not checked.
pub fn first_missing_flag(parsed_flags: &FlagMap, required_flags: &Vec<Flag>) -> (r: Option<usize>)
    ensures
        r is None <==> all_required_present(parsed_flags@, required_flags@),
        r matches Some(i) ==> {
            &&& i < required_flags@.len()
            &&& required_flags@[i as int].required
            &&& !has_flag(parsed_flags@, required_flags@[i as int].identifier@)
            &&& forall|j: int|
                0 <= j < i && #[trigger] required_flags@[j].required ==> has_flag(
                    parsed_flags@,
                    required_flags@[j].identifier@,
                )
        },
{
    let n = required_flags.len();
    let mut i: usize = 0;
    while i < n
        invariant
            n == required_flags@.len(),
            i <= n,
            forall|j: int|
                0 <= j < i && #[trigger] required_flags@[j].required ==> has_flag(
                    parsed_flags@,
                    required_flags@[j].identifier@,
                ),
        decreases n - i,
    {
        let flag = required_flags[i];
        if flag.required && !parsed_flags.contains(flag.identifier) {
            return Some(i);
        }
        i = i + 1;
    }
    None
}

/// Whether every required flag of `required_flags` is present in
/// `parsed_flags`, with or without a value.
pub fn verify_flags(parsed_flags: &FlagMap, required_flags: &Vec<Flag>) -> (r: bool)
    ensures
        r == all_required_present(parsed_flags@, required_flags@),
{
    first_missing_flag(parsed_flags, required_flags).is_none()
}

} // verus!

verus! {

/// The token that names flag `id`.
pub open spec fn flag_token(id: Seq<char>) -> Seq<char> {
    seq![FLAG_PREFIX] + id
}

proof fn lemma_flag_token(id: Seq<char>)
    ensures
        is_flag_token(flag_token(id), FLAG_PREFIX),
        flag_token(id).drop_first() == id,
{
    assert(flag_token(id).drop_first() =~= id);
}

/// Two flags with distinct identifiers, each followed by a value, read as
/// those two flags with those values, in order.
pub proof fn law_two_flags_with_values(a: Seq<char>, v1: Seq<char>, b: Seq<char>, v2: Seq<char>)
    requires
        a != b,
        !is_flag_token(v1, FLAG_PREFIX),
        !is_flag_token(v2, FLAG_PREFIX),
    ensures
        scan_flags(seq![flag_token(a), v1, flag_token(b), v2], FLAG_PREFIX) == Ok::<
            ScanState,
            FlagFault,
        >(ScanState { entries: seq![(a, Some(v1)), (b, Some(v2))], dropped: Seq::empty() }),
{
    let s = seq![flag_token(a), v1, flag_token(b), v2];
    lemma_flag_token(a);
    lemma_flag_token(b);
    assert(s.drop_last() =~= seq![flag_token(a), v1, flag_token(b)]);
    assert(s.drop_last().drop_last() =~= seq![flag_token(a), v1]);
    assert(s.drop_last().drop_last().drop_last() =~= seq![flag_token(a)]);
    assert(seq![flag_token(a)].drop_last() =~= Seq::<Seq<char>>::empty());
    reveal_with_fuel(scan_flags, 5);
    reveal_with_fuel(lookup, 3);
    let e1 = Seq::<(Seq<char>, Option<Seq<char>>)>::empty().push((a, None));
    assert(e1.update(0, (a, Some(v1))) =~= seq![(a, Some(v1))]);
    let e2 = seq![(a, Some(v1))];
    assert(e2.drop_first() =~= Seq::<(Seq<char>, Option<Seq<char>>)>::empty());
    assert(!has_flag(e2, b));
    assert(e2.push((b, None)).update(1, (b, Some(v2))) =~= seq![(a, Some(v1)), (b, Some(v2))]);
}

/// The same flag named twice, each time with a value, fails on the second
/// naming as a duplicate flag.
pub proof fn law_repeated_flag_fails(a: Seq<char>, v1: Seq<char>, v2: Seq<char>)
    requires
        !is_flag_token(v1, FLAG_PREFIX),
        !is_flag_token(v2, FLAG_PREFIX),
    ensures
        scan_flags(seq![flag_token(a), v1, flag_token(a), v2], FLAG_PREFIX) == Err::<
            ScanState,
            FlagFault,
        >(FlagFault::DuplicateFlag(a)),
{
    let s = seq![flag_token(a), v1, flag_token(a), v2];
    lemma_flag_token(a);
    assert(s.drop_last() =~= seq![flag_token(a), v1, flag_token(a)]);
    assert(s.drop_last().drop_last() =~= seq![flag_token(a), v1]);
    assert(s.drop_last().drop_last().drop_last() =~= seq![flag_token(a)]);
    assert(seq![flag_token(a)].drop_last() =~= Seq::<Seq<char>>::empty());
    reveal_with_fuel(scan_flags, 5);
    reveal_with_fuel(lookup, 2);
    let e1 = Seq::<(Seq<char>, Option<Seq<char>>)>::empty().push((a, None));
    assert(e1.update(0, (a, Some(v1))) =~= seq![(a, Some(v1))]);
    assert(has_flag(seq![(a, Some(v1))], a));
}

/// A flag at the end of the line, with no value after it, is present
/// without a value.
pub proof fn law_trailing_flag_has_no_value(a: Seq<char>)
    ensures
        scan_flags(seq![flag_token(a)], FLAG_PREFIX) == Ok::<ScanState, FlagFault>(
            ScanState { entries: seq![(a, None)], dropped: Seq::empty() },
        ),
{
    lemma_flag_token(a);
    assert(seq![flag_token(a)].drop_last() =~= Seq::<Seq<char>>::empty());
    reveal_with_fuel(scan_flags, 2);
    assert(Seq::<(Seq<char>, Option<Seq<char>>)>::empty().push((a, None)) =~= seq![(a, None)]);
}

/// A value before any flag is dropped and the flags after it are read as
/// usual.
pub proof fn law_leading_value_dropped(v1: Seq<char>, a: Seq<char>, v2: Seq<char>)
    requires
        !is_flag_token(v1, FLAG_PREFIX),
        !is_flag_token(v2, FLAG_PREFIX),
    ensures
        scan_flags(seq![v1, flag_token(a), v2], FLAG_PREFIX) == Ok::<ScanState, FlagFault>(
            ScanState { entries: seq![(a, Some(v2))], dropped: seq![v1] },
        ),
{
    let s = seq![v1, flag_token(a), v2];
    lemma_flag_token(a);
    assert(s.drop_last() =~= seq![v1, flag_token(a)]);
    assert(s.drop_last().drop_last() =~= seq![v1]);
    assert(seq![v1].drop_last() =~= Seq::<Seq<char>>::empty());
    reveal_with_fuel(scan_flags, 4);
    assert(Seq::<Seq<char>>::empty().push(v1) =~= seq![v1]);
    let e1 = Seq::<(Seq<char>, Option<Seq<char>>)>::empty().push((a, None));
    assert(e1.update(0, (a, Some(v2))) =~= seq![(a, Some(v2))]);
}

} // verus!

verus! {

proof fn lemma_flag_recorded(toks: Seq<Seq<char>>, k: int, i: int, prefix: char)
    requires
        0 <= i < k <= toks.len(),
        is_flag_token(toks[i], prefix),
        scan_flags(toks.subrange(0, k), prefix) is Ok,
    ensures
        exists|m: int|
            0 <= m < scan_flags(toks.subrange(0, k), prefix)->Ok_0.entries.len()
                && #[trigger] scan_flags(toks.subrange(0, k), prefix)->Ok_0.entries[m].0
                == toks[i].drop_first(),
    decreases k,
{
    let s = toks.subrange(0, k);
    assert(s.drop_last() =~= toks.subrange(0, k - 1));
    assert(s.last() == toks[k - 1]);
    if k - 1 > 0 && scan_flags(toks.subrange(0, k - 1), prefix) is Ok {
        let prev = scan_flags(toks.subrange(0, k - 1), prefix)->Ok_0;
        let st = scan_flags(s, prefix)->Ok_0;
        if i < k - 1 {
            lemma_flag_recorded(toks, k - 1, i, prefix);
            let m = choose|m: int|
                0 <= m < prev.entries.len() && #[trigger] prev.entries[m].0 == toks[i].drop_first();
            assert(0 <= m < st.entries.len() && st.entries[m].0 == toks[i].drop_first());
        } else {
            assert(st.entries[st.entries.len() - 1].0 == toks[i].drop_first());
        }
    } else if k - 1 == 0 {
        assert(toks.subrange(0, 0) =~= Seq::<Seq<char>>::empty());
        let st = scan_flags(s, prefix)->Ok_0;
        assert(st.entries[st.entries.len() - 1].0 == toks[i].drop_first());
    }
}

/// A line that names the same flag twice never reads successfully.
pub proof fn law_flag_named_twice_fails(toks: Seq<Seq<char>>, i: int, j: int)
    requires
        0 <= i < j < toks.len(),
        is_flag_token(toks[i], FLAG_PREFIX),
        is_flag_token(toks[j], FLAG_PREFIX),
        toks[i].drop_first() == toks[j].drop_first(),
    ensures
        scan_flags(toks, FLAG_PREFIX) is Err,
{
    let s = toks.subrange(0, j + 1);
    assert(s.drop_last() =~= toks.subrange(0, j));
    assert(s.last() == toks[j]);
    if scan_flags(toks.subrange(0, j), FLAG_PREFIX) is Ok {
        lemma_flag_recorded(toks, j, i, FLAG_PREFIX);
        let st = scan_flags(toks.subrange(0, j), FLAG_PREFIX)->Ok_0;
        let m = choose|m: int|
            0 <= m < st.entries.len() && #[trigger] st.entries[m].0 == toks[i].drop_first();
        lemma_key_present(st.entries, toks[i].drop_first(), m);
    }
    lemma_fault_stays(toks, j + 1, FLAG_PREFIX);
}

} // verus!

verus! {

/// Every token of `vs` is a value token.
pub open spec fn all_values(vs: Seq<Seq<char>>, prefix: char) -> bool {
    forall|i: int| 0 <= i < vs.len() ==> !is_flag_token(#[trigger] vs[i], prefix)
}

proof fn lemma_values_only(vs: Seq<Seq<char>>, prefix: char)
    requires
        all_values(vs, prefix),
    ensures
        scan_flags(vs, prefix) == Ok::<ScanState, FlagFault>(
            ScanState { entries: Seq::empty(), dropped: vs },
        ),
    decreases vs.len(),
{
    if vs.len() > 0 {
        assert(all_values(vs.drop_last(), prefix)) by {
            assert forall|i: int| 0 <= i < vs.drop_last().len() implies !is_flag_token(
                #[trigger] vs.drop_last()[i],
                prefix,
            ) by {
                assert(vs.drop_last()[i] == vs[i]);
            }
        }
        lemma_values_only(vs.drop_last(), prefix);
        assert(!is_flag_token(vs[vs.len() - 1], prefix));
        assert(vs.drop_last().push(vs.last()) =~= vs);
    } else {
        assert(vs =~= Seq::<Seq<char>>::empty());
    }
}

/// Value tokens before the first flag change nothing but the list of
/// dropped tokens: the line reads as it would without them, or fails with
/// the same fault.
pub proof fn law_leading_values_dropped(vs: Seq<Seq<char>>, ts: Seq<Seq<char>>)
    requires
        all_values(vs, FLAG_PREFIX),
    ensures
        match scan_flags(ts, FLAG_PREFIX) {
            Ok(st) => scan_flags(vs + ts, FLAG_PREFIX) == Ok::<ScanState, FlagFault>(
                ScanState { entries: st.entries, dropped: vs + st.dropped },
            ),
            Err(e) => scan_flags(vs + ts, FLAG_PREFIX) == Err::<ScanState, FlagFault>(e),
        },
    decreases ts.len(),
{
    if ts.len() == 0 {
        assert(vs + ts =~= vs);
        assert(vs + Seq::<Seq<char>>::empty() =~= vs);
        lemma_values_only(vs, FLAG_PREFIX);
    } else {
        let all = vs + ts;
        assert(all.drop_last() =~= vs + ts.drop_last());
        assert(all.last() == ts.last());
        law_leading_values_dropped(vs, ts.drop_last());
        if let Ok(st) = scan_flags(ts.drop_last(), FLAG_PREFIX) {
            assert((vs + st.dropped).push(ts.last()) =~= vs + st.dropped.push(ts.last()));
        }
    }
}

} // verus!
