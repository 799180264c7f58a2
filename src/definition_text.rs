use vstd::prelude::*;
use vstd::string::{StrSliceExecFns, StringExecFns};

use crate::common::{replace_all, replace_text};
use crate::word::Voc;
use itertools::Itertools;

verus! {

// ----- what the outside calls return -----

/// `s` with `p` removed from its front as often as it is there.
pub open spec fn strip_repeated_prefix(s: Seq<char>, p: Seq<char>) -> Seq<char>
    decreases s.len(),
{
    if p.len() > 0 && s.len() >= p.len() && s.take(p.len() as int) == p {
        strip_repeated_prefix(s.skip(p.len() as int), p)
    } else {
        s
    }
}

/// `s` with every run of spaces shortened to one space.
pub open spec fn spaces_collapsed(s: Seq<char>) -> Seq<char>
    decreases s.len(),
{
    if s.len() == 0 {
        s
    } else if s.len() >= 2 && s[0] == ' ' && s[1] == ' ' {
        spaces_collapsed(s.drop_first())
    } else {
        seq![s[0]] + spaces_collapsed(s.drop_first())
    }
}

/// The result of regex's `replace_all` of `FOOTNOTE_PATTERN` in `s` by a space.
pub uninterp spec fn footnotes_blanked(s: Seq<char>) -> Seq<char>;

/// The result of `str::trim` on `s`.
pub uninterp spec fn whitespace_trimmed(s: Seq<char>) -> Seq<char>;

/// Relies on std's `str::trim_start_matches` with a string pattern: the
/// pattern is removed from the front as often as it is there.
#[verifier::external_body]
fn trim_start_text(s: &str, p: &str) -> (r: String)
    ensures
        r@ == strip_repeated_prefix(s@, p@),
{
    s.trim_start_matches(p).to_owned()
}

/// Relies on std's `str::trim`: the result depends on the text alone.
#[verifier::external_body]
fn trim_text(s: &str) -> (r: String)
    ensures
        r@ == whitespace_trimmed(s@),
{
    s.trim().to_owned()
}

/// Runs of spaces.
pub const SPACES_PATTERN: &'static str = r" +";

/// Footnote marks such as `[1]` and `[x 1]`.
pub const FOOTNOTE_PATTERN: &'static str = r"(\[. \d+\])|(\[\d+\])";

/// Relies on regex's `Regex::replace_all`, which replaces every match of the
/// pattern, from the left and without overlap. With ` +` and a single space
/// every run of spaces becomes one space; with the footnote pattern the
/// result depends on the text alone. Both patterns are valid, so
/// `Regex::new` succeeds.
#[verifier::external_body]
fn regex_replace_all(pattern: &str, text: &str, with: &str) -> (r: String)
    requires
        pattern@ == SPACES_PATTERN@ || pattern@ == FOOTNOTE_PATTERN@,
        with@ == " "@,
    ensures
        pattern@ == SPACES_PATTERN@ ==> r@ == spaces_collapsed(text@),
        pattern@ == FOOTNOTE_PATTERN@ ==> r@ == footnotes_blanked(text@),
{
    regex::Regex::new(pattern).unwrap().replace_all(text, with).into_owned()
}

/// Whether byte `b` stays as it is in a URL: a letter or digit of ASCII, or
/// one of `-`, `.`, `_`, `~`.
pub open spec fn is_unreserved(b: u8) -> bool {
    (48 <= b <= 57) || (65 <= b <= 90) || (97 <= b <= 122) || b == 45 || b == 46 || b == 95 || b
        == 126
}

pub open spec fn hex_digit(d: int) -> char {
    seq!['0', '1', '2', '3', '4', '5', '6', '7', '8', '9', 'A', 'B', 'C', 'D', 'E', 'F'][d]
}

/// `bytes` percent-encoded: unreserved bytes as they are, every other byte
/// as `%` and two upper-case hex digits.
pub open spec fn percent_encoded(bytes: Seq<u8>) -> Seq<char>
    decreases bytes.len(),
{
    if bytes.len() == 0 {
        Seq::empty()
    } else {
        let b = bytes[0];
        (if is_unreserved(b) {
            seq![b as char]
        } else {
            seq!['%', hex_digit(b as int / 16), hex_digit(b as int % 16)]
        }) + percent_encoded(bytes.drop_first())
    }
}

/// Relies on urlencoding's `encode`: it percent-encodes every byte of the
/// text's UTF-8 form but the unreserved ones, with upper-case hex digits.
#[verifier::external_body]
fn url_encode(s: &str) -> (r: String)
    ensures
        r@ == percent_encoded(vstd::utf8::encode_utf8(s@)),
{
    urlencoding::encode(s).into_owned()
}

/// `s` without the items that equal an earlier item.
pub open spec fn first_occurrences(s: Seq<Seq<char>>) -> Seq<Seq<char>>
    decreases s.len(),
{
    if s.len() == 0 {
        s
    } else {
        let prev = first_occurrences(s.drop_last());
        if prev.contains(s.last()) {
            prev
        } else {
            prev.push(s.last())
        }
    }
}

pub open spec fn texts(v: Seq<String>) -> Seq<Seq<char>> {
    v.map_values(|t: String| t@)
}

/// Relies on itertools' `unique`: it keeps, in order, the first of each
/// group of equal items and drops the later ones.
#[verifier::external_body]
fn unique_texts(items: &Vec<String>) -> (r: Vec<String>)
    ensures
        texts(r@) == first_occurrences(texts(items@)),
{
    items.iter().unique().cloned().collect()
}

// ----- cleaning a definition -----

/// The no-break space of scraped pages.
pub open spec fn nbsp() -> Seq<char> {
    seq!['\u{a0}']
}

/// The mark before which a definition turns into usage samples.
pub open spec fn sample_mark() -> char {
    '\u{25c6}'
}

/// `s` up to, and without, the first `c`.
pub open spec fn before_char(s: Seq<char>, c: char) -> Seq<char>
    decreases s.len(),
{
    if s.len() == 0 {
        s
    } else if s[0] == c {
        Seq::empty()
    } else {
        seq![s[0]] + before_char(s.drop_first(), c)
    }
}

/// `s` with every non-empty label of `vocs` removed, in turn.
pub open spec fn without_labels(vocs: Seq<Seq<char>>, s: Seq<char>) -> Seq<char>
    decreases vocs.len(),
{
    if vocs.len() == 0 {
        s
    } else {
        let t = without_labels(vocs.drop_last(), s);
        if vocs.last().len() == 0 {
            t
        } else {
            replace_all(t, vocs.last(), Seq::empty())
        }
    }
}

/// Replaces no-break spaces by plain ones.
pub fn replace_u(def: &str) -> (r: String)
    ensures
        r@ == replace_all(def@, nbsp(), " "@),
{
    proof {
        reveal_strlit("\u{a0}");
        assert("\u{a0}"@ =~= nbsp());
    }
    replace_text(def, "\u{a0}", " ")
}

/// Cuts a definition at its first usage sample.
pub fn remove_samples(def: &str) -> (r: String)
    ensures
        r@ == before_char(def@, sample_mark()),
{
    let n = def.unicode_len();
    let mut i: usize = 0;
    proof {
        assert(def@.take(0) =~= Seq::<char>::empty());
        assert(def@.skip(0) =~= def@);
    }
    while i < n
        invariant
            n == def@.len(),
            i <= n,
            forall|j: int| 0 <= j < i ==> def@[j] != sample_mark(),
            before_char(def@, sample_mark()) == def@.take(i as int) + before_char(
                def@.skip(i as int),
                sample_mark(),
            ),
        decreases n - i,
    {
        if def.get_char(i) == '\u{25c6}' {
            proof {
                assert(def@.take(i as int) + Seq::<char>::empty() =~= def@.subrange(0, i as int));
            }
            return def.substring_char(0, i).to_owned();
        }
        proof {
            assert(def@.skip(i as int).drop_first() =~= def@.skip(i + 1));
            assert(def@.take(i + 1) =~= def@.take(i as int).push(def@[i as int]));
            assert(def@.take(i as int) + (seq![def@[i as int]] + before_char(
                def@.skip(i + 1),
                sample_mark(),
            )) =~= def@.take(i + 1) + before_char(def@.skip(i + 1), sample_mark()));
        }
        i = i + 1;
    }
    proof {
        assert(def@.skip(n as int) =~= Seq::<char>::empty());
        assert(def@.take(n as int) + Seq::<char>::empty() =~= def@);
    }
    def.to_owned()
}

/// Blanks footnote marks and trims the result.
pub fn remove_noise(def: &str) -> (r: String)
    ensures
        r@ == whitespace_trimmed(footnotes_blanked(def@)),
{
    let blanked = regex_replace_all(FOOTNOTE_PATTERN, def, " ");
    trim_text(blanked.as_str())
}

/// Shortens every run of spaces to one.
pub fn remove_multiple_spaces(def: &str) -> (r: String)
    ensures
        r@ == spaces_collapsed(def@),
{
    regex_replace_all(SPACES_PATTERN, def, " ")
}

/// Removes the vocabulary labels from a definition, then the separators
/// left at its front.
pub fn remove_vocs(vocs: &Vec<String>, def: &str) -> (r: String)
    ensures
        r@ == strip_repeated_prefix(without_labels(texts(vocs@), def@), ", "@),
{
    let mut new_def = String::from_str(def);
    let n = vocs.len();
    for i in 0..n
        invariant
            n == vocs@.len(),
            new_def@ == without_labels(texts(vocs@).take(i as int), def@),
    {
        proof {
            assert(texts(vocs@).take(i + 1).drop_last() =~= texts(vocs@).take(i as int));
        }
        let voc = &vocs[i];
        if voc.as_str().unicode_len() > 0 {
            new_def = replace_text(new_def.as_str(), voc.as_str(), "");
            proof {
                assert(""@ =~= Seq::<char>::empty()) by {
                    reveal_strlit("");
                }
            }
        }
    }
    proof {
        assert(texts(vocs@).take(n as int) =~= texts(vocs@));
    }
    trim_start_text(new_def.as_str(), ", ")
}

/// A scraped definition made presentable: plain spaces, no labels, no
/// samples, no footnote marks, single spaces.
pub fn pretty_definition(vocs: &Vec<String>, def: &str) -> (r: String)
    ensures
        r@ == spaces_collapsed(
            whitespace_trimmed(
                footnotes_blanked(
                    before_char(
                        strip_repeated_prefix(
                            without_labels(texts(vocs@), replace_all(def@, nbsp(), " "@)),
                            ", "@,
                        ),
                        sample_mark(),
                    ),
                ),
            ),
        ),
{
    let plain = replace_u(def);
    let unlabelled = remove_vocs(vocs, plain.as_str());
    let cut = remove_samples(unlabelled.as_str());
    let quiet = remove_noise(cut.as_str());
    remove_multiple_spaces(quiet.as_str())
}

// ----- dictionary pages and labels -----

/// The address of the printable dictionary page of a word.
pub fn vocs_url(word: &str) -> (r: String)
    ensures
        r@ == "https://ru.wiktionary.org/w/index.php?title="@ + percent_encoded(
            vstd::utf8::encode_utf8(word@),
        ) + "&printable=yes"@,
{
    let mut url = String::from_str("https://ru.wiktionary.org/w/index.php?title=");
    let encoded = url_encode(word);
    url.append(encoded.as_str());
    url.append("&printable=yes");
    url
}

/// All the labels of the definitions, in order.
pub open spec fn all_labels(defs: Seq<(Vec<String>, String)>) -> Seq<Seq<char>>
    decreases defs.len(),
{
    if defs.len() == 0 {
        Seq::empty()
    } else {
        all_labels(defs.drop_last()) + texts(defs.last().0@)
    }
}

/// The distinct labels of the definitions, in order of first use.
pub fn get_all_vocs(def_with_vocs: &Vec<(Vec<String>, String)>) -> (r: Vec<String>)
    ensures
        texts(r@) == first_occurrences(all_labels(def_with_vocs@)),
{
    let mut labels: Vec<String> = Vec::new();
    let n = def_with_vocs.len();
    for i in 0..n
        invariant
            n == def_with_vocs@.len(),
            texts(labels@) == all_labels(def_with_vocs@.take(i as int)),
    {
        proof {
            assert(def_with_vocs@.take(i + 1).drop_last() =~= def_with_vocs@.take(i as int));
        }
        let ghost before = labels@;
        let vocs = &def_with_vocs[i].0;
        let m = vocs.len();
        for j in 0..m
            invariant
                m == vocs@.len(),
                texts(labels@) == texts(before) + texts(vocs@).take(j as int),
        {
            let ghost prev = labels@;
            labels.push(vocs[j].clone());
            proof {
                assert(labels@ =~= prev.push(vocs@[j as int]));
                assert(texts(labels@) =~= texts(prev).push(vocs@[j as int]@));
                assert(texts(vocs@).take(j + 1) =~= texts(vocs@).take(j as int).push(vocs@[j as int]@));
                assert(texts(labels@) =~= texts(before) + texts(vocs@).take(j + 1));
            }
        }
        proof {
            assert(texts(vocs@).take(m as int) =~= texts(vocs@));
        }
    }
    proof {
        assert(def_with_vocs@.take(n as int) =~= def_with_vocs@);
    }
    unique_texts(&labels)
}

/// The last entry of `vocs` whose short label is `short`.
pub open spec fn voc_by_short(vocs: Seq<Voc>, short: Seq<char>) -> Option<Voc>
    decreases vocs.len(),
{
    if vocs.len() == 0 {
        None
    } else if vocs.last().short@ == short {
        Some(vocs.last())
    } else {
        voc_by_short(vocs.drop_last(), short)
    }
}

/// The entry of each definition: the one named by its first label, if any.
pub open spec fn first_label_voc(vocs: Seq<Voc>, labels: Seq<String>) -> Option<Voc> {
    if labels.len() == 0 {
        None
    } else {
        voc_by_short(vocs, labels[0]@)
    }
}

fn copy_voc(v: &Voc) -> (r: Voc)
    ensures
        r == *v,
{
    Voc { id: v.id, short: v.short.clone(), full: v.full.clone() }
}

fn find_voc(vocs: &Vec<Voc>, short: &String) -> (r: Option<Voc>)
    ensures
        r == voc_by_short(vocs@, short@),
{
    let mut i = vocs.len();
    proof {
        assert(vocs@.take(i as int) =~= vocs@);
    }
    while i > 0
        invariant
            i <= vocs@.len(),
            voc_by_short(vocs@, short@) == voc_by_short(vocs@.take(i as int), short@),
        decreases i,
    {
        proof {
            assert(vocs@.take(i as int).drop_last() =~= vocs@.take(i - 1));
        }
        if vocs[i - 1].short == *short {
            return Some(copy_voc(&vocs[i - 1]));
        }
        i = i - 1;
    }
    None
}

/// Pairs each definition with the vocabulary entry of its first label, when
/// the stored entries have one with that short label; the last stored entry
/// wins when several share it.
pub fn attach_vocs(definitions: &Vec<(Vec<String>, String)>, vocs: &Vec<Voc>) -> (r: Vec<
    (Option<Voc>, String),
>)
    ensures
        r@.len() == definitions@.len(),
        forall|i: int|
            0 <= i < definitions@.len() ==> {
                &&& (#[trigger] r@[i]).0 == first_label_voc(vocs@, definitions@[i].0@)
                &&& r@[i].1@ == definitions@[i].1@
            },
{
    let mut out: Vec<(Option<Voc>, String)> = Vec::new();
    let n = definitions.len();
    proof {
        assert(vocs@.take(vocs@.len() as int) =~= vocs@);
    }
    for i in 0..n
        invariant
            n == definitions@.len(),
            out@.len() == i,
            forall|k: int|
                0 <= k < i ==> {
                    &&& (#[trigger] out@[k]).0 == first_label_voc(vocs@, definitions@[k].0@)
                    &&& out@[k].1@ == definitions@[k].1@
                },
    {
        let (labels, def) = &definitions[i];
        let voc = if labels.len() > 0 {
            find_voc(vocs, &labels[0])
        } else {
            None
        };
        out.push((voc, def.clone()));
    }
    out
}

} // verus!
