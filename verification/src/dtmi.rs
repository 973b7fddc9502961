//! Structured, versioned identifiers of model entities.
//!
//! An identifier is written `dtmi:` followed by one or more labels separated
//! by `:`, then `;` and its version, a whole number from 1 to 999999999.
//! A label starts with a letter and holds letters, digits, `_` and `.`.
//! The version may be written with `.0` behind it, so `;1.0` and `;1` name
//! one identifier; the normal form leaves the `.0` out.
use vstd::prelude::*;
use vstd::string::*;
use vstd::utf8::is_ascii_chars;
use crate::text::{
    ascii_len, char_at, dec_value, decimal, find, find_char, is_canonical_number, is_digit,
    is_letter, join, lemma_dec_value_bound, lemma_find_bounds, lemma_pow10_monotonic,
    lemma_decimal_len, lemma_decimal_round_trip, lemma_find_first, lemma_join_free_of,
    lemma_join_push, lemma_pow10_values, lemma_split_covers, lemma_split_join, parse_number,
    push_decimal, split, split_text, views, free_of,
};

verus! {

/// What an identifier is: its labels and its version.
pub struct DtmiView {
    pub labels: Seq<Seq<char>>,
    pub version: nat,
}

/// Most digits a version may have.
pub const MAX_VERSION_DIGITS: usize = 9;

/// Whether `c` may stand in a label.
pub open spec fn is_label_char(c: char) -> bool {
    is_letter(c) || is_digit(c) || c == '_' || c == '.'
}

/// Whether `s` is a label: not empty, a letter first, label characters only.
pub open spec fn valid_label(s: Seq<char>) -> bool {
    &&& s.len() > 0
    &&& is_letter(s[0])
    &&& forall|i: int| 0 <= i < s.len() ==> is_label_char(#[trigger] s[i])
}

/// Whether every one of `labels` is a label.
pub open spec fn valid_labels(labels: Seq<Seq<char>>) -> bool {
    forall|k: int| 0 <= k < labels.len() ==> valid_label(#[trigger] labels[k])
}

/// Whether `v` is an identifier: at least one label, all of them valid, and
/// a version in range.
pub open spec fn valid_dtmi(v: DtmiView) -> bool {
    &&& v.labels.len() >= 1
    &&& valid_labels(v.labels)
    &&& 1 <= v.version <= 999_999_999
}

/// The scheme prefix every identifier starts with.
pub open spec fn scheme() -> Seq<char> {
    seq!['d', 't', 'm', 'i', ':']
}

/// The normal form of an identifier as text.
pub open spec fn render(v: DtmiView) -> Seq<char> {
    scheme() + join(v.labels, ':') + seq![';'] + decimal(v.version)
}

/// Whether `s` is a version number: shortest decimal form, at most nine
/// digits, not zero.
pub open spec fn valid_version_number(s: Seq<char>) -> bool {
    is_canonical_number(s) && s.len() <= MAX_VERSION_DIGITS && dec_value(s) >= 1
}

/// The version that a version text stands for, if it is one: a version
/// number, alone or with `.0` behind it.
pub open spec fn version_of_text(s: Seq<char>) -> Option<nat> {
    let dot = find(s, '.');
    if dot >= s.len() {
        if valid_version_number(s) {
            Some(dec_value(s))
        } else {
            None
        }
    } else {
        let number = s.take(dot as int);
        if valid_version_number(number) && s.skip(dot as int + 1) == seq!['0'] {
            Some(dec_value(number))
        } else {
            None
        }
    }
}

/// The identifier that a text stands for, or `None` where the text is
/// malformed.
pub open spec fn dtmi_of_text(t: Seq<char>) -> Option<DtmiView> {
    if t.len() < 5 || t.take(5) != scheme() {
        None
    } else {
        let body = t.skip(5);
        let semi = find(body, ';');
        if semi >= body.len() {
            None
        } else {
            let labels = split(body.take(semi as int), ':');
            let version = version_of_text(body.skip(semi as int + 1));
            if valid_labels(labels) && version is Some {
                Some(DtmiView { labels, version: version.unwrap() })
            } else {
                None
            }
        }
    }
}

/// An identifier of a model entity.
#[derive(Debug)]
pub struct Dtmi {
    labels: Vec<String>,
    version: u32,
}

/// The outcome of reading a text that is no identifier.
#[derive(Debug)]
pub struct MalformedIdentifier {
    /// The text that was refused.
    pub text: String,
}

impl View for Dtmi {
    type V = DtmiView;

    closed spec fn view(&self) -> DtmiView {
        DtmiView {
            labels: views(self.labels@),
            version: self.version as nat,
        }
    }
}

/// Whether the label text is a valid label.
fn label_is_valid(label: &str) -> (r: bool)
    requires
        label.is_ascii(),
    ensures
        r == valid_label(label@),
{
    let n: usize = ascii_len(label);
    if n == 0 {
        return false;
    }
    let first: char = char_at(label, 0);
    if !(('a' <= first && first <= 'z') || ('A' <= first && first <= 'Z')) {
        return false;
    }
    let mut i: usize = 0;
    while i < n
        invariant
            label.is_ascii(),
            n == label@.len(),
            i <= n,
            forall|j: int| 0 <= j < i ==> is_label_char(#[trigger] label@[j]),
        decreases n - i,
    {
        let c: char = char_at(label, i);
        let ok = ('a' <= c && c <= 'z') || ('A' <= c && c <= 'Z') || ('0' <= c && c <= '9') || c
            == '_' || c == '.';
        if !ok {
            return false;
        }
        i += 1;
    }
    true
}

/// Whether all the label texts are valid labels.
fn labels_are_valid(labels: &Vec<String>) -> (r: bool)
    requires
        forall|k: int| 0 <= k < labels@.len() ==> is_ascii_chars(#[trigger] labels@[k]@),
    ensures
        r == valid_labels(views(labels@)),
{
    let mut k: usize = 0;
    while k < labels.len()
        invariant
            k <= labels@.len(),
            forall|j: int| 0 <= j < labels@.len() ==> is_ascii_chars(#[trigger] labels@[j]@),
            forall|j: int| 0 <= j < k ==> valid_label(#[trigger] views(labels@)[j]),
        decreases labels@.len() - k,
    {
        assert(is_ascii_chars(labels@[k as int]@));
        if !label_is_valid(labels[k].as_str()) {
            assert(!valid_label(views(labels@)[k as int]));
            return false;
        }
        assert(valid_label(views(labels@)[k as int]));
        k += 1;
    }
    true
}

/// Reads a version text.
fn parse_version(text: &str) -> (r: Option<u32>)
    requires
        text.is_ascii(),
    ensures
        r is Some <==> version_of_text(text@) is Some,
        r is Some ==> r.unwrap() == version_of_text(text@).unwrap(),
{
    let n: usize = ascii_len(text);
    let dot: usize = find_char(text, '.');
    let number: &str = if dot >= n {
        text
    } else {
        let number: &str = text.substring_ascii(0, dot);
        let rest: &str = text.substring_ascii(dot + 1, n);
        proof {
            assert(text@.take(dot as int) =~= number@);
            assert(text@.skip(dot as int + 1) =~= rest@);
        }
        let zero = ascii_len(rest) == 1 && char_at(rest, 0) == '0';
        if !zero {
            assert(rest@ != seq!['0']) by {
                if rest@ == seq!['0'] {
                    assert(rest@.len() == 1 && rest@[0] == '0');
                }
            }
            return None;
        }
        assert(rest@ =~= seq!['0']);
        number
    };
    match parse_number(number, MAX_VERSION_DIGITS) {
        Some(version) => {
            if version >= 1 {
                Some(version)
            } else {
                None
            }
        },
        None => None,
    }
}

/// A version text that is accepted holds digits and at most one dot, and
/// stands for a number in range.
pub proof fn lemma_version_of_text(s: Seq<char>)
    requires
        version_of_text(s) is Some,
    ensures
        is_ascii_chars(s),
        1 <= version_of_text(s).unwrap() <= 999_999_999,
{
    let dot = find(s, '.');
    lemma_find_bounds(s, '.');
    lemma_pow10_values();
    if dot >= s.len() {
        lemma_dec_value_bound(s);
        lemma_pow10_monotonic(s.len(), 9);
    } else {
        let number = s.take(dot as int);
        let rest = s.skip(dot as int + 1);
        lemma_dec_value_bound(number);
        lemma_pow10_monotonic(number.len(), 9);
        assert forall|i: int| 0 <= i < s.len() implies '\0' <= #[trigger] s[i] <= '\u{7f}' by {
            if i < dot {
                assert(is_digit(number[i]));
            } else if i > dot {
                assert(rest[i - dot - 1] == s[i]);
                assert(rest.len() == 1);
            }
        }
    }
}

/// A text that stands for an identifier holds ASCII characters only, and
/// the identifier it stands for is a valid one.
pub proof fn lemma_dtmi_of_text(t: Seq<char>)
    requires
        dtmi_of_text(t) is Some,
    ensures
        is_ascii_chars(t),
        valid_dtmi(dtmi_of_text(t).unwrap()),
{
    let body = t.skip(5);
    let semi = find(body, ';');
    lemma_find_bounds(body, ';');
    let path = body.take(semi as int);
    let version = body.skip(semi as int + 1);
    let labels = split(path, ':');
    lemma_version_of_text(version);
    assert forall|i: int| 0 <= i < t.len() implies '\0' <= #[trigger] t[i] <= '\u{7f}' by {
        if i < 5 {
            assert(t[i] == t.take(5)[i]);
        } else if i - 5 < semi {
            let b = i - 5;
            assert(path[b] == t[i]);
            if path[b] != ':' {
                lemma_split_covers(path, ':', b);
                let (k, j) = choose|k: int, j: int|
                    0 <= k < split(path, ':').len() && 0 <= j < split(path, ':')[k].len()
                        && #[trigger] split(path, ':')[k][j] == path[b];
                assert(valid_label(labels[k]));
                assert(is_label_char(labels[k][j]));
            }
        } else if i - 5 == semi {
            assert(body[semi as int] == t[i]);
        } else {
            assert(version[i - 5 - semi - 1] == t[i]);
        }
    }
}

impl Dtmi {
    /// Every identifier value is a valid identifier.
    #[verifier::type_invariant]
    pub open spec fn well_formed(self) -> bool {
        valid_dtmi(self@)
    }

    /// Reads an identifier. Succeeds exactly on the texts that stand for
    /// one, and then gives that identifier; any other text is handed back
    /// in the error.
    pub fn parse(text: &str) -> (r: Result<Dtmi, MalformedIdentifier>)
        ensures
            match r {
                Ok(d) => dtmi_of_text(text@) == Some(d@),
                Err(e) => dtmi_of_text(text@) is None && e.text@ == text@,
            },
    {
        if !text.is_ascii() {
            proof {
                if dtmi_of_text(text@) is Some {
                    lemma_dtmi_of_text(text@);
                }
            }
            return Err(MalformedIdentifier { text: text.to_owned() });
        }
        let n: usize = ascii_len(text);
        if n < 5 {
            return Err(MalformedIdentifier { text: text.to_owned() });
        }
        let has_scheme = char_at(text, 0) == 'd' && char_at(text, 1) == 't' && char_at(text, 2)
            == 'm' && char_at(text, 3) == 'i' && char_at(text, 4) == ':';
        if !has_scheme {
            proof {
                if text@.take(5) == scheme() {
                    assert(forall|i: int| 0 <= i < 5 ==> text@[i] == text@.take(5)[i]);
                }
            }
            return Err(MalformedIdentifier { text: text.to_owned() });
        }
        assert(text@.take(5) =~= scheme());
        let body: &str = text.substring_ascii(5, n);
        assert(body@ =~= text@.skip(5));
        let body_len: usize = n - 5;
        let semi: usize = find_char(body, ';');
        if semi >= body_len {
            return Err(MalformedIdentifier { text: text.to_owned() });
        }
        let path: &str = body.substring_ascii(0, semi);
        let version_text: &str = body.substring_ascii(semi + 1, body_len);
        proof {
            assert(path@ =~= body@.take(semi as int));
            assert(version_text@ =~= body@.skip(semi as int + 1));
        }
        let labels: Vec<String> = split_text(path, ':');
        if !labels_are_valid(&labels) {
            return Err(MalformedIdentifier { text: text.to_owned() });
        }
        match parse_version(version_text) {
            Some(version) => {
                proof {
                    lemma_dtmi_of_text(text@);
                }
                Ok(Dtmi { labels, version })
            },
            None => Err(MalformedIdentifier { text: text.to_owned() }),
        }
    }

    /// The identifier in its normal form: the scheme, the labels with `:`
    /// between them, `;` and the version. Reading that text gives the
    /// identifier back.
    pub fn to_string(&self) -> (r: String)
        ensures
            r@ == render(self@),
            dtmi_of_text(r@) == Some(self@),
    {
        proof {
            use_type_invariant(self);
            law_normal_form_parses(self@);
        }
        let mut out: String = String::from_str("dtmi:");
        proof {
            reveal_strlit("dtmi:");
            reveal_strlit(":");
            reveal_strlit(";");
            assert(out@ =~= scheme() + join(views(self.labels@).take(0), ':'));
        }
        let mut i: usize = 0;
        while i < self.labels.len()
            invariant
                i <= self.labels@.len(),
                out@ == scheme() + join(views(self.labels@).take(i as int), ':'),
                ":"@ == seq![':'],
            decreases self.labels@.len() - i,
        {
            let ghost done = views(self.labels@).take(i as int);
            let ghost piece = self.labels@[i as int]@;
            if i > 0 {
                out.append(":");
            }
            out.append(self.labels[i].as_str());
            proof {
                lemma_join_push(done, piece, ':');
                assert(views(self.labels@).take(i + 1) =~= done.push(piece));
                assert(out@ =~= scheme() + join(done.push(piece), ':'));
            }
            i += 1;
        }
        assert(views(self.labels@).take(i as int) =~= views(self.labels@));
        out.append(";");
        push_decimal(&mut out, self.version);
        assert(out@ =~= render(self@));
        out
    }

    /// Whether two identifiers are the same: the same labels and the same
    /// version.
    pub fn equals(&self, other: &Dtmi) -> (r: bool)
        ensures
            r == (self@ == other@),
    {
        if self.version != other.version || self.labels.len() != other.labels.len() {
            assert(views(self.labels@).len() == self.labels@.len());
            assert(views(other.labels@).len() == other.labels@.len());
            return false;
        }
        let mut i: usize = 0;
        while i < self.labels.len()
            invariant
                i <= self.labels@.len(),
                self.labels@.len() == other.labels@.len(),
                forall|j: int| 0 <= j < i ==> self.labels@[j]@ == other.labels@[j]@,
            decreases self.labels@.len() - i,
        {
            if self.labels[i] != other.labels[i] {
                assert(views(self.labels@)[i as int] != views(other.labels@)[i as int]);
                return false;
            }
            i += 1;
        }
        assert(views(self.labels@) =~= views(other.labels@));
        true
    }

    /// The identifier with these labels and this version, where they make a
    /// valid identifier.
    pub fn from_parts(labels: Vec<String>, version: u32) -> (r: Option<Dtmi>)
        ensures
            r is Some <==> valid_dtmi(
                DtmiView { labels: views(labels@), version: version as nat },
            ),
            r is Some ==> r.unwrap()@ == (DtmiView {
                labels: views(labels@),
                version: version as nat,
            }),
    {
        if labels.len() == 0 || version < 1 || version > 999_999_999 {
            assert(views(labels@).len() == labels@.len());
            return None;
        }
        let mut k: usize = 0;
        while k < labels.len()
            invariant
                k <= labels@.len(),
                forall|j: int| 0 <= j < k ==> is_ascii_chars(#[trigger] labels@[j]@),
            decreases labels@.len() - k,
        {
            if !labels[k].is_ascii() {
                proof {
                    let label = views(labels@)[k as int];
                    if valid_label(label) {
                        assert forall|i: int| 0 <= i < label.len() implies '\0' <= #[trigger] label[i]
                            <= '\u{7f}' by {
                            assert(is_label_char(label[i]));
                        }
                    }
                }
                return None;
            }
            k += 1;
        }
        if !labels_are_valid(&labels) {
            return None;
        }
        Some(Dtmi { labels, version })
    }

    /// The identifier one label below this one, with the same version:
    /// `Some` exactly where `label` is a valid label.
    pub fn child(&self, label: &str) -> (r: Option<Dtmi>)
        ensures
            r is Some <==> valid_label(label@),
            r is Some ==> r.unwrap()@ == (DtmiView {
                labels: self@.labels.push(label@),
                version: self@.version,
            }),
    {
        let copy = self.clone();
        let mut labels = copy.labels;
        let ghost before = labels@;
        labels.push(label.to_owned());
        proof {
            use_type_invariant(self);
            assert(views(labels@) =~= views(before).push(label@));
            let all = views(labels@);
            if valid_label(label@) {
                assert forall|k: int| 0 <= k < all.len() implies valid_label(#[trigger] all[k]) by {
                    if k < before.len() {
                        assert(all[k] == self@.labels[k]);
                    }
                }
            } else {
                assert(all[before.len() as int] == label@);
            }
        }
        Dtmi::from_parts(labels, self.version)
    }

    /// The labels of the identifier's path, in order.
    pub fn labels(&self) -> (r: &Vec<String>)
        ensures
            views(r@) == self@.labels,
    {
        &self.labels
    }

    /// The version: a whole number, at least 1.
    pub fn version(&self) -> (r: u32)
        ensures
            r == self@.version,
            r >= 1,
    {
        proof {
            use_type_invariant(self);
        }
        self.version
    }
}

/// Reads an identifier into `dtmi`: `Some` of it where `value` stands for
/// one, `None` otherwise.
pub fn create_dtmi(value: &str, dtmi: &mut Option<Dtmi>)
    ensures
        match *final(dtmi) {
            Some(d) => dtmi_of_text(value@) == Some(d@),
            None => dtmi_of_text(value@) is None,
        },
{
    match Dtmi::parse(value) {
        Ok(d) => {
            *dtmi = Some(d);
        },
        Err(_) => {
            *dtmi = None;
        },
    }
}

impl Clone for Dtmi {
    fn clone(&self) -> (r: Self)
        ensures
            r@ == self@,
    {
        let mut labels: Vec<String> = Vec::new();
        let mut i: usize = 0;
        while i < self.labels.len()
            invariant
                i <= self.labels@.len(),
                labels@.len() == i,
                forall|j: int| 0 <= j < i ==> labels@[j]@ == self.labels@[j]@,
            decreases self.labels@.len() - i,
        {
            labels.push(self.labels[i].clone());
            i += 1;
        }
        proof {
            use_type_invariant(self);
            assert(views(labels@) =~= views(self.labels@));
        }
        Dtmi { labels, version: self.version }
    }
}

impl PartialEq for Dtmi {
    fn eq(&self, other: &Dtmi) -> (r: bool) {
        self.equals(other)
    }
}

impl Eq for Dtmi {

}

impl vstd::std_specs::cmp::PartialEqSpecImpl for Dtmi {
    open spec fn obeys_eq_spec() -> bool {
        true
    }

    open spec fn eq_spec(&self, other: &Dtmi) -> bool {
        self@ == other@
    }
}

/// Writing an identifier in its normal form and reading that text gives the
/// identifier back.
pub proof fn law_normal_form_parses(v: DtmiView)
    requires
        valid_dtmi(v),
    ensures
        dtmi_of_text(render(v)) == Some(v),
{
    let path = join(v.labels, ':');
    let vt = decimal(v.version);
    let t = render(v);
    let body = t.skip(5);
    assert(t.take(5) =~= scheme());
    assert(body =~= path + seq![';'] + vt);
    assert forall|k: int| 0 <= k < v.labels.len() implies free_of(#[trigger] v.labels[k], ';')
        && free_of(v.labels[k], ':') by {
        let label = v.labels[k];
        assert(valid_label(label));
        assert forall|i: int| 0 <= i < label.len() implies #[trigger] label[i] != ';'
            && label[i] != ':' by {
            assert(is_label_char(label[i]));
        }
    }
    lemma_join_free_of(v.labels, ':', ';');
    assert forall|j: int| 0 <= j < path.len() implies body[j] != ';' by {
        assert(body[j] == path[j]);
    }
    lemma_find_first(body, ';', path.len() as int);
    assert(body.take(path.len() as int) =~= path);
    assert(body.skip(path.len() as int + 1) =~= vt);
    lemma_split_join(v.labels, ':');

    lemma_decimal_round_trip(v.version);
    lemma_pow10_values();
    lemma_decimal_len(v.version, 9);
    assert forall|j: int| 0 <= j < vt.len() implies vt[j] != '.' by {
        assert(is_digit(vt[j]));
    }
    lemma_find_first(vt, '.', vt.len() as int);
    assert(version_of_text(vt) == Some(v.version));
}

/// Where a text stands for an identifier, the normal form of that
/// identifier stands for the same identifier.
pub proof fn law_text_round_trip(t: Seq<char>)
    requires
        dtmi_of_text(t) is Some,
    ensures
        dtmi_of_text(render(dtmi_of_text(t).unwrap())) == dtmi_of_text(t),
{
    lemma_dtmi_of_text(t);
    law_normal_form_parses(dtmi_of_text(t).unwrap());
}

} // verus!
