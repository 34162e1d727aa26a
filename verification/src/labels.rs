//! The label registry: a mutable mapping from 64-bit keys to human-readable
//! labels, with a strict/lenient resolution mode.
//!
//! The registry behaves as a bidirectional map: loading an entry overwrites
//! any earlier entry with the same key and any earlier entry with the same
//! label, so at any time one key has at most one label and one label at most
//! one key.  Label sources are lines of the form `0xHHHH,label`: a
//! hexadecimal key, a comma, then the label (a second comma ends the label).

use vstd::prelude::*;

use crate::errors::ParamError;
use crate::hash::HashKey;
use crate::hash::digest_of;
use crate::text::chars_vec;
use crate::text::push_char;

verus! {

/// The registry's entries as (key, label) pairs.
pub open spec fn reg_view(s: Seq<(u64, String)>) -> Seq<(u64, Seq<char>)> {
    s.map_values(|p: (u64, String)| (p.0, p.1@))
}

/// The label of `key`: the latest entry with that key, if any.
pub open spec fn label_lookup(es: Seq<(u64, Seq<char>)>, key: u64) -> Option<Seq<char>>
    decreases es.len(),
{
    if es.len() == 0 {
        None
    } else if es.last().0 == key {
        Some(es.last().1)
    } else {
        label_lookup(es.drop_last(), key)
    }
}

/// The key of `label`: the latest entry with that label, if any.
pub open spec fn key_lookup(es: Seq<(u64, Seq<char>)>, label: Seq<char>) -> Option<u64>
    decreases es.len(),
{
    if es.len() == 0 {
        None
    } else if es.last().1 == label {
        Some(es.last().0)
    } else {
        key_lookup(es.drop_last(), label)
    }
}

/// The entries with every entry carrying `key` or `label` removed.
pub open spec fn without_entry(es: Seq<(u64, Seq<char>)>, key: u64, label: Seq<char>) -> Seq<
    (u64, Seq<char>),
>
    decreases es.len(),
{
    if es.len() == 0 {
        es
    } else {
        let rest = without_entry(es.drop_last(), key, label);
        if es.last().0 == key || es.last().1 == label {
            rest
        } else {
            rest.push(es.last())
        }
    }
}

/// The entries after merging one (key, label) pair, last write winning in
/// both directions.
pub open spec fn with_entry(es: Seq<(u64, Seq<char>)>, key: u64, label: Seq<char>) -> Seq<
    (u64, Seq<char>),
> {
    without_entry(es, key, label).push((key, label))
}

/// The position of the first comma of `s`, or `s.len()` when none occurs.
pub open spec fn first_comma(s: Seq<char>) -> int
    decreases s.len(),
{
    if s.len() == 0 {
        0
    } else if s[0] == ',' {
        0
    } else {
        1 + first_comma(s.drop_first())
    }
}

/// `first_comma` names the first comma: everything before it is not a
/// comma, and it is a comma unless the string has none.
pub proof fn lemma_first_comma(s: Seq<char>)
    ensures
        0 <= first_comma(s) <= s.len(),
        first_comma(s) < s.len() ==> s[first_comma(s)] == ',',
        forall|m: int| 0 <= m < first_comma(s) ==> s[m] != ',',
    decreases s.len(),
{
    if s.len() > 0 && s[0] != ',' {
        lemma_first_comma(s.drop_first());
        assert forall|m: int| 0 <= m < first_comma(s) implies s[m] != ',' by {
            if m > 0 {
                assert(s.drop_first()[m - 1] == s[m]);
            }
        }
    }
}

/// Whether a character is a hexadecimal digit, either case.
pub open spec fn is_hex_digit(c: char) -> bool {
    ('0' <= c && c <= '9') || ('a' <= c && c <= 'f') || ('A' <= c && c <= 'F')
}

/// The value of one hexadecimal digit.
pub open spec fn hex_digit_int(c: char) -> int {
    if '0' <= c && c <= '9' {
        c as int - '0' as int
    } else if 'a' <= c && c <= 'f' {
        c as int - 'a' as int + 10
    } else {
        c as int - 'A' as int + 10
    }
}

/// The value of a string of hexadecimal digits, most significant first.
pub open spec fn hex_value(s: Seq<char>) -> int
    decreases s.len(),
{
    if s.len() == 0 {
        0
    } else {
        hex_value(s.drop_last()) * 16 + hex_digit_int(s.last())
    }
}

/// Whether `s` is a non-empty string of hexadecimal digits whose value
/// fits in 64 bits.
pub open spec fn valid_hex_u64(s: Seq<char>) -> bool {
    &&& s.len() >= 1
    &&& forall|m: int| 0 <= m < s.len() ==> is_hex_digit(#[trigger] s[m])
    &&& hex_value(s) <= u64::MAX
}

/// What one label-source line denotes: the key written in hexadecimal
/// after a `0x` prefix up to the first comma, and the label between the
/// first comma and the second (or the end); `None` when the line has no
/// comma, no `0x` prefix, or a malformed or overflowing key.
pub open spec fn parse_label_line(s: Seq<char>) -> Option<(u64, Seq<char>)> {
    let i = first_comma(s);
    if i == s.len() {
        None
    } else {
        let keypart = s.take(i);
        let rest = s.subrange(i + 1, s.len() as int);
        let label = rest.take(first_comma(rest));
        if keypart.len() > 2 && keypart[0] == '0' && keypart[1] == 'x' && valid_hex_u64(
            keypart.subrange(2, keypart.len() as int),
        ) {
            Some((hex_value(keypart.subrange(2, keypart.len() as int)) as u64, label))
        } else {
            None
        }
    }
}

/// The registry after merging every line of a source, in order.
pub open spec fn merge_lines(es: Seq<(u64, Seq<char>)>, lines: Seq<Seq<char>>) -> Seq<
    (u64, Seq<char>),
>
    decreases lines.len(),
{
    if lines.len() == 0 {
        es
    } else {
        let prev = merge_lines(es, lines.drop_last());
        match parse_label_line(lines.last()) {
            Some(p) => with_entry(prev, p.0, p.1),
            None => prev,
        }
    }
}

/// Hex digit values are in range, so hex values only grow as digits are
/// appended.
pub proof fn lemma_hex_value_grows(s: Seq<char>, k: int)
    requires
        0 <= k < s.len(),
        forall|m: int| 0 <= m < s.len() ==> is_hex_digit(#[trigger] s[m]),
    ensures
        0 <= hex_value(s.take(k)),
        hex_value(s.take(k)) * 16 + hex_digit_int(s[k]) == hex_value(s.take(k + 1)),
        hex_value(s.take(k + 1)) <= hex_value(s),
    decreases s.len() - k,
{
    lemma_hex_value_nonneg(s.take(k));
    assert(s.take(k + 1).drop_last() =~= s.take(k));
    assert(s.take(k + 1).last() == s[k]);
    if k + 1 < s.len() {
        lemma_hex_value_grows(s, k + 1);
        lemma_hex_value_nonneg(s.take(k + 1));
    } else {
        assert(s.take(k + 1) =~= s);
    }
}

/// A string of hexadecimal digits has a non-negative value.
pub proof fn lemma_hex_value_nonneg(s: Seq<char>)
    requires
        forall|m: int| 0 <= m < s.len() ==> is_hex_digit(#[trigger] s[m]),
    ensures
        0 <= hex_value(s),
    decreases s.len(),
{
    if s.len() > 0 {
        lemma_hex_value_nonneg(s.drop_last());
    }
}

/// The process-wide mapping from hash keys to display labels.
pub struct LabelRegistry {
    entries: Vec<(u64, String)>,
    strict: bool,
}

impl LabelRegistry {
    /// The current entries, oldest first.
    pub closed spec fn entries(&self) -> Seq<(u64, Seq<char>)> {
        reg_view(self.entries@)
    }

    /// Whether unresolved labels are rejected rather than digested.
    pub closed spec fn is_strict(&self) -> bool {
        self.strict
    }

    /// An empty registry, lenient by default.
    pub fn new() -> (r: LabelRegistry)
        ensures
            r.entries().len() == 0,
            !r.is_strict(),
    {
        LabelRegistry { entries: Vec::new(), strict: false }
    }

    /// Sets the strict flag, affecting all subsequent label resolutions.
    pub fn set_strict(&mut self, strict: bool)
        ensures
            final(self).is_strict() == strict,
            final(self).entries() == old(self).entries(),
    {
        self.strict = strict;
    }

    /// Whether strict resolution is on.
    pub fn strict_mode(&self) -> (r: bool)
        ensures
            r == self.is_strict(),
    {
        self.strict
    }

    /// The label of `key`, if the registry holds one.
    #[verifier::loop_isolation(false)]
    pub fn label_of(&self, key: u64) -> (r: Option<String>)
        ensures
            r is Some <==> label_lookup(self.entries(), key) is Some,
            r matches Some(l) ==> label_lookup(self.entries(), key) == Some(l@),
    {
        let ghost es = self.entries();
        let mut k: usize = self.entries.len();
        proof {
            assert(es.take(self.entries@.len() as int) =~= es);
        }
        while k > 0
            invariant
                k <= self.entries@.len(),
                label_lookup(es, key) == label_lookup(es.take(k as int), key),
            decreases k,
        {
            proof {
                assert(es.take(k as int).drop_last() =~= es.take(k as int - 1));
                assert(es.take(k as int).last() == es[k as int - 1]);
                assert(es[k as int - 1] == (self.entries@[k as int - 1].0, self.entries@[k as int
                    - 1].1@));
            }
            if self.entries[k - 1].0 == key {
                return Some(self.entries[k - 1].1.clone());
            }
            k = k - 1;
        }
        proof {
            assert(es.take(0) =~= Seq::<(u64, Seq<char>)>::empty());
        }
        None
    }

    /// The key of `label`, if the registry holds a reverse mapping.
    #[verifier::loop_isolation(false)]
    pub fn key_of_label(&self, label: &String) -> (r: Option<u64>)
        ensures
            r is Some <==> key_lookup(self.entries(), label@) is Some,
            r matches Some(k) ==> key_lookup(self.entries(), label@) == Some(k),
    {
        let ghost es = self.entries();
        let mut k: usize = self.entries.len();
        proof {
            assert(es.take(self.entries@.len() as int) =~= es);
        }
        while k > 0
            invariant
                k <= self.entries@.len(),
                key_lookup(es, label@) == key_lookup(es.take(k as int), label@),
            decreases k,
        {
            proof {
                assert(es.take(k as int).drop_last() =~= es.take(k as int - 1));
                assert(es.take(k as int).last() == es[k as int - 1]);
                assert(es[k as int - 1] == (self.entries@[k as int - 1].0, self.entries@[k as int
                    - 1].1@));
            }
            if self.entries[k - 1].1.eq(label) {
                return Some(self.entries[k - 1].0);
            }
            k = k - 1;
        }
        proof {
            assert(es.take(0) =~= Seq::<(u64, Seq<char>)>::empty());
        }
        None
    }

    /// Merges one entry, overwriting any earlier entry with the same key
    /// and any earlier entry with the same label.
    #[verifier::loop_isolation(false)]
    pub fn add_label(&mut self, key: u64, label: String)
        ensures
            final(self).entries() == with_entry(old(self).entries(), key, label@),
            final(self).is_strict() == old(self).is_strict(),
            label_lookup(final(self).entries(), key) == Some(label@),
            key_lookup(final(self).entries(), label@) == Some(key),
    {
        let ghost es = self.entries();
        let mut out: Vec<(u64, String)> = Vec::new();
        let mut k: usize = 0;
        proof {
            assert(es.take(0) =~= Seq::<(u64, Seq<char>)>::empty());
            assert(reg_view(out@) =~= without_entry(es.take(0), key, label@));
        }
        while k < self.entries.len()
            invariant
                k <= self.entries@.len(),
                reg_view(out@) == without_entry(es.take(k as int), key, label@),
            decreases self.entries@.len() - k,
        {
            let ghost ov = out@;
            proof {
                assert(es.take(k as int + 1).drop_last() =~= es.take(k as int));
                assert(es.take(k as int + 1).last() == es[k as int]);
                assert(es[k as int] == (self.entries@[k as int].0, self.entries@[k as int].1@));
            }
            let e0 = self.entries[k].0;
            if e0 != key && !self.entries[k].1.eq(&label) {
                let e1 = self.entries[k].1.clone();
                out.push((e0, e1));
                proof {
                    assert(reg_view(out@) =~= reg_view(ov).push((e0, e1@)));
                }
            }
            k += 1;
        }
        proof {
            assert(es.take(self.entries@.len() as int) =~= es);
        }
        out.push((key, label));
        self.entries = out;
        proof {
            assert(self.entries() =~= with_entry(es, key, label@));
        }
    }

    /// Parses a label source and merges its entries, last write winning;
    /// `Source` without any change when some line cannot be parsed.
    #[verifier::loop_isolation(false)]
    pub fn load_labels(&mut self, lines: &Vec<String>) -> (r: Result<(), ParamError>)
        ensures
            final(self).is_strict() == old(self).is_strict(),
            (forall|i: int|
                0 <= i < lines@.len() ==> parse_label_line((#[trigger] lines@[i])@) is Some)
                <==> r is Ok,
            r is Ok ==> final(self).entries() == merge_lines(
                old(self).entries(),
                lines@.map_values(|l: String| l@),
            ),
            r is Err ==> r == Err::<(), ParamError>(ParamError::Source) && final(self).entries()
                == old(self).entries(),
    {
        let ghost lv = lines@.map_values(|l: String| l@);
        let mut parsed: Vec<(u64, String)> = Vec::new();
        let mut k: usize = 0;
        while k < lines.len()
            invariant
                k <= lines@.len(),
                parsed@.len() == k as int,
                forall|i: int|
                    0 <= i < k ==> parse_label_line(lv[i]) == Some(
                        ((#[trigger] parsed@[i]).0, parsed@[i].1@),
                    ),
            decreases lines@.len() - k,
        {
            match parse_one_line(&lines[k]) {
                Ok(p) => {
                    parsed.push(p);
                },
                Err(e) => {
                    proof {
                        assert(lv[k as int] == (lines@[k as int])@);
                        assert(parse_label_line((lines@[k as int])@) is None);
                    }
                    return Err(e);
                },
            }
            k += 1;
        }
        let ghost es = self.entries();
        let mut m: usize = 0;
        while m < parsed.len()
            invariant
                m <= parsed@.len(),
                parsed@.len() == lines@.len(),
                self.is_strict() == old(self).is_strict(),
                forall|i: int|
                    0 <= i < parsed@.len() ==> parse_label_line(lv[i]) == Some(
                        ((#[trigger] parsed@[i]).0, parsed@[i].1@),
                    ),
                self.entries() == merge_lines(es, lv.take(m as int)),
            decreases parsed@.len() - m,
        {
            proof {
                assert(lv.take(m as int + 1).drop_last() =~= lv.take(m as int));
                assert(lv.take(m as int + 1).last() == lv[m as int]);
            }
            let key = parsed[m].0;
            let lab = parsed[m].1.clone();
            self.add_label(key, lab);
            m += 1;
        }
        proof {
            assert(lv.take(parsed@.len() as int) =~= lv);
            assert forall|i: int| 0 <= i < lines@.len() implies parse_label_line(
                (#[trigger] lines@[i])@,
            ) is Some by {
                assert(lv[i] == (lines@[i])@);
                assert(parse_label_line(lv[i]) == Some((parsed@[i].0, parsed@[i].1@)));
            }
        }
        Ok(())
    }
}

/// Parses one `0xHHHH,label` line.
#[verifier::loop_isolation(false)]
fn parse_one_line(line: &String) -> (r: Result<(u64, String), ParamError>)
    ensures
        r matches Ok(p) ==> parse_label_line(line@) == Some((p.0, p.1@)),
        r is Err ==> r == Err::<(u64, String), ParamError>(ParamError::Source) && parse_label_line(
            line@,
        ) is None,
{
    let cs = chars_vec(line.as_str());
    proof {
        lemma_first_comma(line@);
    }
    let ghost fc = first_comma(line@);
    // find the first comma
    let mut i: usize = 0;
    while i < cs.len() && cs[i] != ','
        invariant
            i <= cs@.len(),
            forall|m: int| 0 <= m < i ==> cs@[m] != ',',
        decreases cs@.len() - i,
    {
        i += 1;
    }
    proof {
        assert(i as int == fc);
    }
    if i == cs.len() {
        return Err(ParamError::Source);
    }
    let ghost keypart = line@.take(fc);
    if i <= 2 {
        return Err(ParamError::Source);
    }
    if cs[0] != '0' || cs[1] != 'x' {
        return Err(ParamError::Source);
    }
    let ghost digits = keypart.subrange(2, keypart.len() as int);
    // parse the hexadecimal key
    let mut acc: u64 = 0;
    let mut k: usize = 2;
    while k < i
        invariant
            2 <= k <= i,
            i < cs@.len(),
            i as int == fc,
            forall|m: int| 2 <= m < k ==> is_hex_digit(#[trigger] cs@[m]),
            acc as int == hex_value(digits.take(k - 2)),
        decreases i - k,
    {
        proof {
            assert(digits.take(k - 2 + 1).drop_last() =~= digits.take(k - 2));
            assert(digits.take(k - 2 + 1).last() == cs@[k as int]);
        }
        let d = match hex_digit_of(cs[k]) {
            Some(d) => d,
            None => {
                proof {
                    assert(digits[k - 2] == cs@[k as int]);
                    assert(!valid_hex_u64(digits));
                }
                return Err(ParamError::Source);
            },
        };
        if acc > 0x0FFF_FFFF_FFFF_FFFFu64 {
            proof {
                if valid_hex_u64(digits) {
                    lemma_hex_value_grows(digits, k - 2);
                    assert(hex_value(digits.take(k - 2 + 1)) > u64::MAX);
                    assert(false);
                }
            }
            return Err(ParamError::Source);
        }
        acc = acc * 16 + d;
        k += 1;
    }
    proof {
        assert(digits.take(i - 2) =~= digits);
    }
    // the label runs to the second comma, or the end
    let ghost rest = line@.subrange(fc + 1, line@.len() as int);
    let mut lab = String::new();
    let mut m: usize = i + 1;
    while m < cs.len() && cs[m] != ','
        invariant
            i as int == fc,
            i + 1 <= m <= cs@.len(),
            lab@ == rest.take(m - (i + 1)),
            forall|q: int| i + 1 <= q < m ==> cs@[q] != ',',
        decreases cs@.len() - m,
    {
        push_char(&mut lab, cs[m]);
        proof {
            assert(rest[m - (i + 1)] == cs@[m as int]);
            assert(lab@ =~= rest.take(m + 1 - (i + 1)));
        }
        m += 1;
    }
    proof {
        lemma_first_comma(rest);
        assert forall|q: int| 0 <= q < m - (i + 1) implies rest[q] != ',' by {
            assert(rest[q] == cs@[q + i + 1]);
        }
        if (m as int) - (i + 1) < rest.len() {
            assert(rest[m - (i + 1)] == cs@[m as int]);
        }
        assert(first_comma(rest) == m - (i + 1));
        assert(valid_hex_u64(digits));
        assert(parse_label_line(line@) == Some((acc, lab@)));
    }
    Ok((acc, lab))
}

/// The value of one hexadecimal digit character, either case.
fn hex_digit_of(c: char) -> (r: Option<u64>)
    ensures
        r is Some <==> is_hex_digit(c),
        r matches Some(d) ==> d == hex_digit_int(c) && d < 16,
{
    if c >= '0' && c <= '9' {
        Some((c as u64) - ('0' as u64))
    } else if c >= 'a' && c <= 'f' {
        Some((c as u64) - ('a' as u64) + 10)
    } else if c >= 'A' && c <= 'F' {
        Some((c as u64) - ('A' as u64) + 10)
    } else {
        None
    }
}

/// The typed forms a hash key may be ingested from: an existing key, a
/// label to resolve through the registry, or a raw 64-bit value.
pub enum HashInput {
    Key(HashKey),
    Label(String),
    Raw(u64),
}

impl HashKey {
    /// Resolves a label through the registry: a stored reverse mapping
    /// wins; otherwise the label itself is digested, unless strict mode is
    /// on, in which case the resolution fails with `UnresolvedLabel`.
    pub fn from_label(registry: &LabelRegistry, label: &str) -> (r: Result<HashKey, ParamError>)
        ensures
            key_lookup(registry.entries(), label@) matches Some(k) ==> (r matches Ok(hk)
                && hk.value == k),
            key_lookup(registry.entries(), label@) is None && !registry.is_strict() ==> (
            r matches Ok(hk) && hk.value == digest_of(label@)),
            key_lookup(registry.entries(), label@) is None && registry.is_strict() ==> r == Err::<
                HashKey,
                ParamError,
            >(ParamError::UnresolvedLabel),
    {
        let owned = label.to_owned();
        match registry.key_of_label(&owned) {
            Some(k) => Ok(HashKey { value: k }),
            None => {
                if registry.strict_mode() {
                    Err(ParamError::UnresolvedLabel)
                } else {
                    Ok(HashKey::from_digest(label))
                }
            },
        }
    }

    /// Ingests a key from any of its accepted forms, trying them exactly
    /// as given: an existing key passes through, a label resolves through
    /// the registry, a raw integer always succeeds.
    pub fn ingest(registry: &LabelRegistry, input: &HashInput) -> (r: Result<HashKey, ParamError>)
        ensures
            input matches HashInput::Key(k) ==> r == Ok::<HashKey, ParamError>(*k),
            input matches HashInput::Label(s) ==> (key_lookup(registry.entries(), s@) matches Some(
                k,
            ) ==> (r matches Ok(hk) && hk.value == k)),
            input matches HashInput::Label(s) ==> (key_lookup(registry.entries(), s@) is None
                && !registry.is_strict() ==> (r matches Ok(hk) && hk.value == digest_of(s@))),
            input matches HashInput::Label(s) ==> (key_lookup(registry.entries(), s@) is None
                && registry.is_strict() ==> r == Err::<HashKey, ParamError>(
                ParamError::UnresolvedLabel,
            )),
            input matches HashInput::Raw(v) ==> (r matches Ok(hk) && hk.value == v),
    {
        match input {
            HashInput::Key(k) => Ok(*k),
            HashInput::Label(s) => HashKey::from_label(registry, s.as_str()),
            HashInput::Raw(v) => Ok(HashKey { value: *v }),
        }
    }
}

} // verus!
