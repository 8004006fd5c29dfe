//! Structural parsing of the markdown documents: `## ` opens a section,
//! `### ` opens an entry inside the current section.
use vstd::prelude::*;
use vstd::string::StringSliceAdditionalSpecFns;

use crate::value::{opt_int, ratio, ratio_of};
use crate::text::{
    alnum, chars_of, contains, contains_chars, has_prefix, is_alnum, lines_of, lower_of,
    lowercase, split_lines, starts_with, string_of, strip_all, strip_all_prefix, trim, trimmed,
};

verus! {

/// The marker that opens a section.
pub open spec fn h2_marker() -> Seq<char> {
    seq!['#', '#', ' ']
}

/// The marker that opens an entry.
pub open spec fn h3_marker() -> Seq<char> {
    seq!['#', '#', '#', ' ']
}

fn h2_marker_vec() -> (r: Vec<char>)
    ensures
        r@ == h2_marker(),
{
    vec!['#', '#', ' ']
}

fn h3_marker_vec() -> (r: Vec<char>)
    ensures
        r@ == h3_marker(),
{
    vec!['#', '#', '#', ' ']
}

/// The heading text of a section line.
pub open spec fn h2_heading(line: Seq<char>) -> Seq<char> {
    trim(strip_all(line, h2_marker()))
}

/// The title of an entry line.
pub open spec fn h3_title(line: Seq<char>) -> Seq<char> {
    trim(strip_all(line, h3_marker()))
}

fn heading_of(line: &Vec<char>, marker: &Vec<char>) -> (r: Vec<char>)
    ensures
        r@ == trim(strip_all(line@, marker@)),
{
    let stripped = strip_all_prefix(line, marker);
    trimmed(&stripped)
}

// ---------------------------------------------------------------- djb2 --

/// The djb2 hash of `bytes`, with 64-bit wrapping arithmetic.
pub open spec fn djb2(bytes: Seq<u8>) -> u64
    decreases bytes.len(),
{
    if bytes.len() == 0 {
        5381
    } else {
        let h = djb2(bytes.drop_last());
        ((h as int * 33 + bytes.last() as int) % 0x1_0000_0000_0000_0000) as u64
    }
}

/// The lowercase hexadecimal digit for `d < 16`.
pub open spec fn hex_digit(d: int) -> char {
    if d < 10 {
        ((d + 48) as u8) as char
    } else {
        ((d + 87) as u8) as char
    }
}

/// Digit `i` of `h` in base 16, counted from the most significant.
pub open spec fn nibble(h: u64, i: int) -> u64 {
    (h >> ((60 - 4 * i) as u64)) & 15
}

/// `h` as 16 lowercase hexadecimal digits, most significant first.
pub open spec fn hex16(h: u64) -> Seq<char> {
    Seq::new(16, |i: int| hex_digit(nibble(h, i) as int))
}

fn hex_char(d: u64) -> (r: char)
    requires
        d < 16,
    ensures
        r == hex_digit(d as int),
{
    if d < 10 {
        ((d + 48) as u8) as char
    } else {
        ((d + 87) as u8) as char
    }
}

/// Change-detection digest of a document: the djb2 hash of its UTF-8
/// bytes as 16 lowercase hexadecimal digits.
pub fn hash_content(content: &str) -> (r: String)
    ensures
        r@ == hex16(djb2(content.spec_bytes())),
{
    let bytes = content.as_bytes();
    let mut hash: u64 = 5381;
    let mut i: usize = 0;
    while i < bytes.len()
        invariant
            i <= bytes@.len(),
            bytes@ == content.spec_bytes(),
            hash == djb2(bytes@.subrange(0, i as int)),
        decreases bytes.len() - i,
    {
        assert(bytes@.subrange(0, i + 1).drop_last() == bytes@.subrange(0, i as int));
        hash = hash.wrapping_mul(33).wrapping_add(bytes[i] as u64);
        i += 1;
    }
    assert(bytes@.subrange(0, bytes@.len() as int) == bytes@);
    let mut digits: Vec<char> = Vec::new();
    let mut k: usize = 0;
    while k < 16
        invariant
            k <= 16,
            digits@.len() == k,
            forall|j: int| 0 <= j < k ==> digits@[j] == hex16(hash)[j],
        decreases 16 - k,
    {
        let shift: u64 = (60 - 4 * k) as u64;
        let d: u64 = (hash >> shift) & 15;
        assert(((hash >> shift) & 15) < 16) by (bit_vector);
        digits.push(hex_char(d));
        k += 1;
    }
    assert(digits@ =~= hex16(hash));
    string_of(&digits)
}

// ------------------------------------------------------ section parsing --

/// The ASCII lowercase of `c` (`char::to_ascii_lowercase`).
pub open spec fn ascii_lower(c: char) -> char {
    if 'A' <= c && c <= 'Z' {
        ((c as u8) + 32) as char
    } else {
        c
    }
}

/// `a` and `b` are equal up to ASCII case (`str::eq_ignore_ascii_case`).
pub open spec fn eq_ascii_nocase(a: Seq<char>, b: Seq<char>) -> bool {
    a.len() == b.len() && forall|i: int| 0 <= i < a.len() ==> ascii_lower(a[i]) == ascii_lower(b[i])
}

fn to_ascii_lower(c: char) -> (r: char)
    ensures
        r == ascii_lower(c),
{
    if 'A' <= c && c <= 'Z' {
        ((c as u8) + 32) as char
    } else {
        c
    }
}

fn eq_nocase(a: &Vec<char>, b: &Vec<char>) -> (r: bool)
    ensures
        r == eq_ascii_nocase(a@, b@),
{
    if a.len() != b.len() {
        return false;
    }
    let mut i: usize = 0;
    while i < a.len()
        invariant
            a.len() == b.len(),
            i <= a.len(),
            forall|j: int| 0 <= j < i ==> ascii_lower(a@[j]) == ascii_lower(b@[j]),
        decreases a.len() - i,
    {
        if to_ascii_lower(a[i]) != to_ascii_lower(b[i]) {
            return false;
        }
        i += 1;
    }
    true
}

/// A section heading names the section `name`: equal up to ASCII case, or
/// containing it once both are lowercased.
pub open spec fn names_section(heading: Seq<char>, name: Seq<char>) -> bool {
    eq_ascii_nocase(heading, name) || contains(lower_of(heading), lower_of(name))
}

/// After reading `lines`: whether the current section is `name`, and how
/// many entries were seen inside such sections.
pub open spec fn entry_count_scan(lines: Seq<Seq<char>>, name: Seq<char>) -> (bool, nat)
    decreases lines.len(),
{
    if lines.len() == 0 {
        (false, 0)
    } else {
        let (inside, n) = entry_count_scan(lines.drop_last(), name);
        let l = lines.last();
        if has_prefix(l, h2_marker()) {
            (names_section(h2_heading(l), name), n)
        } else if inside && has_prefix(l, h3_marker()) {
            (inside, n + 1)
        } else {
            (inside, n)
        }
    }
}

/// Number of entries in the document that stand under a section named `name`.
pub open spec fn entry_count(content: Seq<char>, name: Seq<char>) -> nat {
    entry_count_scan(lines_of(content), name).1
}

/// Count `### ` entries under the `## ` sections whose heading names
/// `section_name`.
pub fn count_h3_under_section(content: &str, section_name: &str) -> (r: usize)
    ensures
        r == entry_count(content@, section_name@),
{
    let chars = chars_of(content);
    let lines = split_lines(&chars);
    let name = chars_of(section_name);
    let name_lower = lowercase(&name);
    let h2 = h2_marker_vec();
    let h3 = h3_marker_vec();
    let mut inside = false;
    let mut count: usize = 0;
    let mut i: usize = 0;
    while i < lines.len()
        invariant
            i <= lines.len(),
            lines.deep_view() == lines_of(content@),
            h2@ == h2_marker(),
            h3@ == h3_marker(),
            name@ == section_name@,
            name_lower@ == lower_of(section_name@),
            count <= i,
            (inside, count as nat) == entry_count_scan(lines.deep_view().subrange(0, i as int), name@),
        decreases lines.len() - i,
    {
        let line = &lines[i];
        assert(line@ == lines.deep_view()[i as int]);
        assert(lines.deep_view().subrange(0, i + 1).drop_last() == lines.deep_view().subrange(0, i as int));
        if starts_with(line, &h2) {
            let heading = heading_of(line, &h2);
            if eq_nocase(&heading, &name) {
                inside = true;
            } else {
                let heading_lower = lowercase(&heading);
                inside = contains_chars(&heading_lower, &name_lower);
            }
        } else if inside && starts_with(line, &h3) {
            count += 1;
        }
        i += 1;
    }
    assert(lines.deep_view().subrange(0, lines.len() as int) == lines.deep_view());
    count
}

// ------------------------------------------------------------- tokens --

/// Characters that split words: anything but alphanumerics and `'`.
pub open spec fn separator(c: char) -> bool {
    !alnum(c) && c != '\''
}

/// A piece is kept as a word when its UTF-8 encoding is longer than one
/// byte: two characters or more, or one non-ASCII character.
pub open spec fn kept_word(w: Seq<char>) -> bool {
    w.len() >= 2 || (w.len() == 1 && (w[0] as u32) >= 0x80)
}

/// Words completed so far, and the piece in progress, after reading `s`.
pub open spec fn word_scan(s: Seq<char>) -> (Seq<Seq<char>>, Seq<char>)
    decreases s.len(),
{
    if s.len() == 0 {
        (seq![], seq![])
    } else {
        let (done, cur) = word_scan(s.drop_last());
        let c = s.last();
        if separator(c) {
            (if kept_word(cur) { done.push(cur) } else { done }, seq![])
        } else {
            (done, cur.push(c))
        }
    }
}

/// The words of `s`, in order.
pub open spec fn words_of(s: Seq<char>) -> Seq<Seq<char>> {
    let (done, cur) = word_scan(s);
    if kept_word(cur) {
        done.push(cur)
    } else {
        done
    }
}

/// The lowercased words of `s`, in order.
pub open spec fn tokens_of(s: Seq<char>) -> Seq<Seq<char>> {
    words_of(s).map_values(|w: Seq<char>| lower_of(w))
}

fn keeps(w: &Vec<char>) -> (r: bool)
    ensures
        r == kept_word(w@),
{
    w.len() >= 2 || (w.len() == 1 && (w[0] as u32) >= 0x80)
}

fn push_token(done: &mut Vec<String>, w: &Vec<char>)
    ensures
        final(done).deep_view() == old(done).deep_view().push(lower_of(w@)),
{
    let lowered = lowercase(w);
    let t = string_of(&lowered);
    let ghost before = done.deep_view();
    done.push(t);
    assert(done.deep_view() =~= before.push(lower_of(w@)));
}

/// Split text into lowercase words: pieces between characters that are
/// neither alphanumeric nor `'`, keeping those longer than one byte.
pub fn tokenize(text: &str) -> (r: Vec<String>)
    ensures
        r.deep_view() == tokens_of(text@),
{
    let s = chars_of(text);
    let mut done: Vec<String> = Vec::new();
    let mut cur: Vec<char> = Vec::new();
    let mut i: usize = 0;
    while i < s.len()
        invariant
            i <= s.len(),
            s@ == text@,
            done.deep_view() == word_scan(s@.subrange(0, i as int)).0.map_values(
                |w: Seq<char>| lower_of(w),
            ),
            cur@ == word_scan(s@.subrange(0, i as int)).1,
        decreases s.len() - i,
    {
        let c = s[i];
        assert(s@.subrange(0, i + 1).drop_last() == s@.subrange(0, i as int));
        let ghost prev = word_scan(s@.subrange(0, i as int)).0;
        if !is_alnum(c) && c != '\'' {
            if keeps(&cur) {
                push_token(&mut done, &cur);
                assert(prev.push(cur@).map_values(|w: Seq<char>| lower_of(w)) =~= prev.map_values(
                    |w: Seq<char>| lower_of(w),
                ).push(lower_of(cur@)));
            }
            cur = Vec::new();
        } else {
            cur.push(c);
        }
        i += 1;
    }
    assert(s@.subrange(0, s.len() as int) == s@);
    let ghost prev = word_scan(s@).0;
    if keeps(&cur) {
        push_token(&mut done, &cur);
        assert(prev.push(cur@).map_values(|w: Seq<char>| lower_of(w)) =~= prev.map_values(
            |w: Seq<char>| lower_of(w),
        ).push(lower_of(cur@)));
    }
    done
}

/// Number of distinct tokens of `s`.
pub open spec fn distinct_tokens(s: Seq<char>) -> nat {
    tokens_of(s).to_set().len()
}

/// Type-token ratio of `s` in millionths, rounded down: distinct tokens
/// over all tokens; absent when `s` has no token.
pub open spec fn type_token_ratio_of(s: Seq<char>) -> Option<int> {
    if tokens_of(s).len() == 0 {
        None
    } else {
        Some(ratio_of(distinct_tokens(s) as int, tokens_of(s).len() as int))
    }
}

fn count_distinct(tokens: &Vec<String>) -> (r: usize)
    ensures
        r == tokens.deep_view().to_set().len(),
        r <= tokens.len(),
{
    let ghost mut seen: Seq<Seq<char>> = seq![];
    let mut count: usize = 0;
    let mut i: usize = 0;
    while i < tokens.len()
        invariant
            i <= tokens.len(),
            count == seen.len(),
            count <= i,
            seen.no_duplicates(),
            seen.to_set() == tokens.deep_view().subrange(0, i as int).to_set(),
        decreases tokens.len() - i,
    {
        let ghost pre = tokens.deep_view().subrange(0, i as int);
        assert(tokens.deep_view().subrange(0, i + 1) =~= pre.push(tokens[i as int]@));
        let mut j: usize = 0;
        let mut dup = false;
        while j < i
            invariant
                i < tokens.len(),
                j <= i,
                dup <==> exists|k: int| 0 <= k < j && tokens@[k]@ == tokens@[i as int]@,
            decreases i - j,
        {
            if tokens[j] == tokens[i] {
                dup = true;
            }
            j += 1;
        }
        proof {
            let t = tokens[i as int]@;
            pre.lemma_push_to_set_commute(t);
            if dup {
                let k = choose|k: int| 0 <= k < i && tokens@[k]@ == tokens@[i as int]@;
                assert(pre[k] == t);
                assert(pre.to_set().contains(t));
                assert(pre.to_set().insert(t) =~= pre.to_set());
            } else {
                assert(!pre.to_set().contains(t)) by {
                    if pre.to_set().contains(t) {
                        let k = choose|k: int| 0 <= k < pre.len() && pre[k] == t;
                        assert(tokens@[k]@ == t);
                    }
                }
                assert(!seen.contains(t)) by {
                    if seen.contains(t) {
                        let k = choose|k: int| 0 <= k < seen.len() && seen[k] == t;
                        assert(seen.to_set().contains(t));
                    }
                }
                seen.lemma_push_to_set_commute(t);
                seen = seen.push(t);
            }
        }
        if !dup {
            count += 1;
        }
        i += 1;
    }
    proof {
        assert(tokens.deep_view().subrange(0, tokens.len() as int) =~= tokens.deep_view());
        seen.unique_seq_to_set();
    }
    count
}

/// Type-token ratio of `text` in millionths: distinct lowercase words over
/// all words; `None` when the text has no word.
pub fn type_token_ratio(text: &str) -> (r: Option<i64>)
    ensures
        opt_int(r) == type_token_ratio_of(text@),
{
    let tokens = tokenize(text);
    if tokens.len() == 0 {
        return None;
    }
    let distinct = count_distinct(&tokens);
    Some(ratio(distinct as u128, tokens.len() as u128))
}

// ---------------------------------------------------- section contents --

/// A lowercased heading names one of `names`, lowercased.
pub open spec fn names_any(heading: Seq<char>, names: Seq<&str>) -> bool {
    exists|k: int| 0 <= k < names.len() && contains(lower_of(heading), lower_of(names[k]@))
}

/// A line with nothing but whitespace.
pub open spec fn blank(l: Seq<char>) -> bool {
    trim(l).len() == 0
}

/// After reading `lines`: whether the current section is one of `names`,
/// and the prose collected from such sections, each line followed by a space.
pub open spec fn prose_scan(lines: Seq<Seq<char>>, names: Seq<&str>) -> (bool, Seq<char>)
    decreases lines.len(),
{
    if lines.len() == 0 {
        (false, seq![])
    } else {
        let (inside, text) = prose_scan(lines.drop_last(), names);
        let l = lines.last();
        if has_prefix(l, h2_marker()) {
            (names_any(h2_heading(l), names), text)
        } else if inside && !has_prefix(l, h3_marker()) && !blank(l) {
            (inside, text + l.push(' '))
        } else {
            (inside, text)
        }
    }
}

/// The prose of the sections of `content` named by `names`.
pub open spec fn section_text(content: Seq<char>, names: Seq<&str>) -> Seq<char> {
    prose_scan(lines_of(content), names).1
}

fn lowered_names(names: &[&str]) -> (r: Vec<Vec<char>>)
    ensures
        r.len() == names@.len(),
        forall|k: int| 0 <= k < r.len() ==> #[trigger] r@[k]@ == lower_of(names@[k]@),
{
    let mut r: Vec<Vec<char>> = Vec::new();
    let mut i: usize = 0;
    while i < names.len()
        invariant
            i <= names@.len(),
            r.len() == i,
            forall|k: int| 0 <= k < i ==> #[trigger] r@[k]@ == lower_of(names@[k]@),
        decreases names@.len() - i,
    {
        let n = chars_of(names[i]);
        r.push(lowercase(&n));
        i += 1;
    }
    r
}

fn heading_names_any(line: &Vec<char>, h2: &Vec<char>, names: &Vec<Vec<char>>, raw: &[&str]) -> (r: bool)
    requires
        h2@ == h2_marker(),
        names.len() == raw@.len(),
        forall|k: int| 0 <= k < names.len() ==> #[trigger] names@[k]@ == lower_of(raw@[k]@),
    ensures
        r == names_any(h2_heading(line@), raw@),
{
    let heading = heading_of(line, h2);
    let lower = lowercase(&heading);
    let mut k: usize = 0;
    while k < names.len()
        invariant
            k <= names.len(),
            names.len() == raw@.len(),
            forall|m: int| 0 <= m < names.len() ==> #[trigger] names@[m]@ == lower_of(raw@[m]@),
            lower@ == lower_of(h2_heading(line@)),
            forall|m: int| 0 <= m < k ==> !contains(lower@, lower_of(#[trigger] raw@[m]@)),
        decreases names.len() - k,
    {
        if contains_chars(&lower, &names[k]) {
            assert(names@[k as int]@ == lower_of(raw@[k as int]@));
            return true;
        }
        k += 1;
    }
    false
}

fn append_line(buf: &mut Vec<char>, line: &Vec<char>)
    ensures
        final(buf)@ == old(buf)@ + line@.push(' '),
{
    let mut i: usize = 0;
    let ghost start = buf@;
    while i < line.len()
        invariant
            i <= line.len(),
            buf@ == start + line@.subrange(0, i as int),
        decreases line.len() - i,
    {
        buf.push(line[i]);
        assert(start + line@.subrange(0, i + 1) =~= (start + line@.subrange(0, i as int)).push(line@[i as int]));
        i += 1;
    }
    buf.push(' ');
    assert(start + line@.push(' ') =~= (start + line@.subrange(0, line.len() as int)).push(' '));
}

fn is_blank(line: &Vec<char>) -> (r: bool)
    ensures
        r == blank(line@),
{
    trimmed(line).len() == 0
}

/// The prose of the `## ` sections whose lowercased heading contains one of
/// `section_names` (lowercased): each non-blank line that is not a `### `
/// entry heading, followed by a space.
pub fn extract_section_text(content: &str, section_names: &[&str]) -> (r: String)
    ensures
        r@ == section_text(content@, section_names@),
{
    let chars = chars_of(content);
    let lines = split_lines(&chars);
    let names = lowered_names(section_names);
    let h2 = h2_marker_vec();
    let h3 = h3_marker_vec();
    let mut inside = false;
    let mut text: Vec<char> = Vec::new();
    let mut i: usize = 0;
    while i < lines.len()
        invariant
            i <= lines.len(),
            lines.deep_view() == lines_of(content@),
            h2@ == h2_marker(),
            h3@ == h3_marker(),
            names.len() == section_names@.len(),
            forall|k: int| 0 <= k < names.len() ==> #[trigger] names@[k]@ == lower_of(section_names@[k]@),
            (inside, text@) == prose_scan(lines.deep_view().subrange(0, i as int), section_names@),
        decreases lines.len() - i,
    {
        let line = &lines[i];
        assert(line@ == lines.deep_view()[i as int]);
        assert(lines.deep_view().subrange(0, i + 1).drop_last() == lines.deep_view().subrange(0, i as int));
        if starts_with(line, &h2) {
            inside = heading_names_any(line, &h2, &names, section_names);
        } else if inside && !starts_with(line, &h3) && !is_blank(line) {
            append_line(&mut text, line);
        }
        i += 1;
    }
    assert(lines.deep_view().subrange(0, lines.len() as int) == lines.deep_view());
    string_of(&text)
}

/// Parser state while collecting entries: inside a named section, the
/// entries completed, the title of the open entry, and its body so far.
pub type EntryState = (bool, Seq<(Seq<char>, Seq<char>)>, Option<Seq<char>>, Seq<char>);

/// Close the open entry, if any: the entries and the body that remain.
pub open spec fn flush(st: EntryState) -> (Seq<(Seq<char>, Seq<char>)>, Seq<char>) {
    match st.2 {
        Some(t) => (st.1.push((t, st.3)), seq![]),
        None => (st.1, st.3),
    }
}

pub open spec fn entry_scan(lines: Seq<Seq<char>>, names: Seq<&str>) -> EntryState
    decreases lines.len(),
{
    if lines.len() == 0 {
        (false, seq![], None, seq![])
    } else {
        let st = entry_scan(lines.drop_last(), names);
        let l = lines.last();
        if has_prefix(l, h2_marker()) {
            let (entries, body) = flush(st);
            (names_any(h2_heading(l), names), entries, None, body)
        } else if st.0 && has_prefix(l, h3_marker()) {
            (st.0, flush(st).0, Some(h3_title(l)), seq![])
        } else if st.2 is Some && st.0 && !blank(l) {
            (st.0, st.1, st.2, st.3 + l.push(' '))
        } else {
            st
        }
    }
}

/// The `(title, body)` entries of the sections of `content` named by `names`.
pub open spec fn entries_of(content: Seq<char>, names: Seq<&str>) -> Seq<(Seq<char>, Seq<char>)> {
    flush(entry_scan(lines_of(content), names)).0
}

/// The views of a list of string pairs.
pub open spec fn pairs_view(v: Seq<(String, String)>) -> Seq<(Seq<char>, Seq<char>)> {
    v.map_values(|p: (String, String)| (p.0@, p.1@))
}

pub open spec fn title_view(t: Option<Vec<char>>) -> Option<Seq<char>> {
    match t {
        Some(v) => Some(v@),
        None => None,
    }
}

fn push_entry(entries: &mut Vec<(String, String)>, title: &Vec<char>, body: &Vec<char>)
    ensures
        pairs_view(final(entries)@) == pairs_view(old(entries)@).push((title@, body@)),
{
    let t = string_of(title);
    let b = string_of(body);
    let ghost before = entries@;
    entries.push((t, b));
    assert(pairs_view(entries@) =~= pairs_view(before).push((title@, body@)));
}

/// The `### ` entries of the `## ` sections whose lowercased heading
/// contains one of `section_names` (lowercased), as `(title, body)` pairs:
/// the trimmed title, and the entry's non-blank lines each followed by a space.
pub fn extract_entries(content: &str, section_names: &[&str]) -> (r: Vec<(String, String)>)
    ensures
        pairs_view(r@) == entries_of(content@, section_names@),
{
    let chars = chars_of(content);
    let lines = split_lines(&chars);
    let names = lowered_names(section_names);
    let h2 = h2_marker_vec();
    let h3 = h3_marker_vec();
    let mut inside = false;
    let mut entries: Vec<(String, String)> = Vec::new();
    let mut title: Option<Vec<char>> = None;
    let mut body: Vec<char> = Vec::new();
    let mut i: usize = 0;
    while i < lines.len()
        invariant
            i <= lines.len(),
            lines.deep_view() == lines_of(content@),
            h2@ == h2_marker(),
            h3@ == h3_marker(),
            names.len() == section_names@.len(),
            forall|k: int| 0 <= k < names.len() ==> #[trigger] names@[k]@ == lower_of(section_names@[k]@),
            (inside, pairs_view(entries@), title_view(title), body@) == entry_scan(
                lines.deep_view().subrange(0, i as int),
                section_names@,
            ),
        decreases lines.len() - i,
    {
        let line = &lines[i];
        assert(line@ == lines.deep_view()[i as int]);
        assert(lines.deep_view().subrange(0, i + 1).drop_last() == lines.deep_view().subrange(0, i as int));
        if starts_with(line, &h2) {
            if let Some(t) = title {
                push_entry(&mut entries, &t, &body);
                body = Vec::new();
            }
            title = None;
            inside = heading_names_any(line, &h2, &names, section_names);
        } else if inside && starts_with(line, &h3) {
            if let Some(t) = title {
                push_entry(&mut entries, &t, &body);
            }
            title = Some(heading_of(line, &h3));
            body = Vec::new();
        } else if title.is_some() && inside && !is_blank(line) {
            append_line(&mut body, line);
        }
        i += 1;
    }
    assert(lines.deep_view().subrange(0, lines.len() as int) == lines.deep_view());
    if let Some(t) = title {
        push_entry(&mut entries, &t, &body);
    }
    entries
}

} // verus!
