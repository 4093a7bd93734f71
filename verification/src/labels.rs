//! Human-readable labels for provider inputs and settings.

use vstd::prelude::*;
use crate::model::ProviderInputField;
use crate::text::{
    chars_of, trim_chars, string_of, trim, is_whitespace, is_whitespace_exec, lower_seq, upper_seq,
    lower_char, upper_char, lower_char_exec, is_ascii_lower,
};

verus! {

/// `s` without every leading repetition of `p` (`str::trim_start_matches`
/// with a string pattern).
pub open spec fn strip_prefix_all(s: Seq<char>, p: Seq<char>) -> Seq<char>
    decreases s.len(),
{
    if p.len() > 0 && s.len() >= p.len() && s.take(p.len() as int) == p {
        strip_prefix_all(s.skip(p.len() as int), p)
    } else {
        s
    }
}

/// '_' and '-' turned into spaces.
pub open spec fn dashes_to_spaces(s: Seq<char>) -> Seq<char> {
    s.map_values(|c: char| if c == '_' || c == '-' { ' ' } else { c })
}

/// `s` with every run of spaces reduced to one space.
pub open spec fn collapse_spaces(s: Seq<char>) -> Seq<char>
    decreases s.len(),
{
    if s.len() == 0 {
        s
    } else {
        let rest = collapse_spaces(s.drop_last());
        if s.last() == ' ' && s.len() >= 2 && s[s.len() - 2] == ' ' {
            rest
        } else {
            rest.push(s.last())
        }
    }
}

/// The end of the run of non-white-space characters starting at `i`.
pub open spec fn word_end(s: Seq<char>, i: int) -> int
    decreases s.len() - i,
{
    if 0 <= i < s.len() && !is_whitespace(s[i]) {
        word_end(s, i + 1)
    } else {
        i
    }
}

pub proof fn lemma_word_end_bounds(s: Seq<char>, i: int)
    requires
        0 <= i <= s.len(),
    ensures
        i <= word_end(s, i) <= s.len(),
        forall|k: int| i <= k < word_end(s, i) ==> !is_whitespace(#[trigger] s[k]),
        word_end(s, i) < s.len() ==> is_whitespace(s[word_end(s, i)]),
    decreases s.len() - i,
{
    if i < s.len() && !is_whitespace(s[i]) {
        lemma_word_end_bounds(s, i + 1);
    }
}

/// The white-space separated words of `s` (`str::split_whitespace`).
pub open spec fn words(s: Seq<char>) -> Seq<Seq<char>>
    decreases s.len(),
{
    if s.len() == 0 {
        seq![]
    } else if is_whitespace(s[0]) {
        words(s.drop_first())
    } else {
        let e = word_end(s, 0);
        proof {
            lemma_word_end_bounds(s, 0);
            lemma_word_end_bounds(s, 1);
        }
        seq![s.take(e)] + words(s.skip(e))
    }
}

/// A word with its first character in ASCII upper case and the rest in ASCII
/// lower case.
pub open spec fn title_word(w: Seq<char>) -> Seq<char> {
    if w.len() == 0 {
        w
    } else {
        seq![upper_char(w[0])] + lower_seq(w.drop_first())
    }
}

/// Words joined with single spaces.
pub open spec fn join_words(ws: Seq<Seq<char>>) -> Seq<char>
    decreases ws.len(),
{
    if ws.len() == 0 {
        seq![]
    } else if ws.len() == 1 {
        ws[0]
    } else {
        join_words(ws.drop_last()) + " "@ + ws.last()
    }
}

/// Every word of `s` title-cased, joined with single spaces.
pub open spec fn title_case(s: Seq<char>) -> Seq<char> {
    join_words(words(s).map_values(|w: Seq<char>| title_word(w)))
}

/// The label shown for a provider input: its label (or, when blank, its
/// name) trimmed, without leading "LatentSlate"/"latentslate" prefixes, with
/// '_' and '-' as spaces and runs of spaces collapsed; well-known parameter
/// names get their usual spelling, labels with lower-case letters are kept,
/// and all-capital labels are title-cased word by word.
pub open spec fn input_label_text(label: Seq<char>, name: Seq<char>) -> Seq<char> {
    let raw = if trim(label).len() == 0 {
        trim(name)
    } else {
        trim(label)
    };
    let stripped = strip_prefix_all(
        strip_prefix_all(
            strip_prefix_all(strip_prefix_all(raw, "LatentSlate "@), "LatentSlate_"@),
            "latentslate "@,
        ),
        "latentslate_"@,
    );
    let l = collapse_spaces(dashes_to_spaces(stripped));
    label_from_cleaned(l)
}

/// The label for a cleaned-up input label `l` (prefixes stripped, dashes as
/// spaces, spaces collapsed).
pub open spec fn label_from_cleaned(l: Seq<char>) -> Seq<char> {
    let normalized = upper_seq(trim(l));
    if normalized == "POS PROMPT"@ || normalized == "POSITIVE"@ || normalized == "POSITIVE PROMPT"@ {
        "Positive Prompt"@
    } else if normalized == "NEG PROMPT"@ || normalized == "NEGATIVE"@ || normalized
        == "NEGATIVE PROMPT"@ {
        "Negative Prompt"@
    } else if normalized == "LWDNESS"@ {
        "Wildness"@
    } else if normalized == "CFG"@ || normalized == "CFG SCALE"@ {
        "CFG Scale"@
    } else if normalized == "STEPS"@ {
        "Steps"@
    } else if normalized == "SEED"@ {
        "Seed"@
    } else if normalized == "WIDTH"@ {
        "Width"@
    } else if normalized == "HEIGHT"@ {
        "Height"@
    } else if exists|i: int| 0 <= i < l.len() && is_ascii_lower(#[trigger] l[i]) {
        trim(l)
    } else {
        title_case(l)
    }
}

/// `v` without every leading repetition of `p`.
fn strip_prefix_all_exec(v: &Vec<char>, p: &str) -> (r: Vec<char>)
    ensures
        r@ == strip_prefix_all(v@, p@),
{
    let pat = chars_of(p);
    let n = v.len();
    let m = pat.len();
    let mut start: usize = 0;
    assert(v@.skip(0) =~= v@);
    loop
        invariant
            start <= n == v.len(),
            m == pat.len(),
            pat@ == p@,
            strip_prefix_all(v@, p@) == strip_prefix_all(v@.skip(start as int), p@),
        ensures
            start <= n,
            strip_prefix_all(v@, p@) == v@.skip(start as int),
        decreases n - start,
    {
        if m == 0 || n - start < m {
            assert(strip_prefix_all(v@.skip(start as int), p@) == v@.skip(start as int));
            break;
        }
        let mut k: usize = 0;
        let mut same = true;
        while k < m
            invariant
                k <= m == pat.len(),
                start + m <= n == v.len(),
                same == (forall|j: int| 0 <= j < k ==> v@[start + j] == pat@[j]),
            decreases m - k,
        {
            if v[start + k] != pat[k] {
                same = false;
            }
            k = k + 1;
        }
        let ghost rest = v@.skip(start as int);
        if !same {
            assert(rest.take(m as int) != p@) by {
                let j = choose|j: int| 0 <= j < m && v@[start + j] != pat@[j];
                assert(rest.take(m as int)[j] == v@[start + j]);
            }
            assert(strip_prefix_all(v@.skip(start as int), p@) == v@.skip(start as int));
            break;
        }
        assert(rest.take(m as int) =~= p@);
        assert(rest.skip(m as int) =~= v@.skip(start + m));
        start = start + m;
    }
    let r = crate::text::slice_chars(v, start, n);
    assert(r@ =~= v@.skip(start as int));
    r
}

/// '_' and '-' turned into spaces.
pub(crate) fn dashes_to_spaces_exec(v: &Vec<char>) -> (r: Vec<char>)
    ensures
        r@ == dashes_to_spaces(v@),
{
    let mut r: Vec<char> = Vec::new();
    let n = v.len();
    for i in 0..n
        invariant
            n == v.len(),
            r@ == dashes_to_spaces(v@.take(i as int)),
    {
        let c = v[i];
        if c == '_' || c == '-' {
            r.push(' ');
        } else {
            r.push(c);
        }
        assert(dashes_to_spaces(v@.take(i + 1)) =~= dashes_to_spaces(v@.take(i as int)).push(
            dashes_to_spaces(v@)[i as int],
        ));
    }
    assert(v@.take(n as int) =~= v@);
    r
}

/// Runs of spaces reduced to one space.
fn collapse_spaces_exec(v: &Vec<char>) -> (r: Vec<char>)
    ensures
        r@ == collapse_spaces(v@),
{
    let mut r: Vec<char> = Vec::new();
    let n = v.len();
    for i in 0..n
        invariant
            n == v.len(),
            r@ == collapse_spaces(v@.take(i as int)),
    {
        let c = v[i];
        let ghost t = v@.take(i + 1);
        assert(t.drop_last() =~= v@.take(i as int));
        assert(t.last() == c);
        if !(c == ' ' && i >= 1 && v[i - 1] == ' ') {
            r.push(c);
        } else {
            assert(t[t.len() - 2] == v@[i - 1]);
        }
    }
    assert(v@.take(n as int) =~= v@);
    r
}

/// ASCII upper-casing of a character vector.
fn upper_chars(v: &Vec<char>) -> (r: Vec<char>)
    ensures
        r@ == upper_seq(v@),
{
    let mut r: Vec<char> = Vec::new();
    let n = v.len();
    for i in 0..n
        invariant
            n == v.len(),
            r@ == upper_seq(v@.take(i as int)),
    {
        let c = v[i];
        let u = if 'a' <= c && c <= 'z' {
            let b: u8 = c as u8;
            let l: u8 = b - 32;
            l as char
        } else {
            c
        };
        r.push(u);
        assert(upper_seq(v@.take(i + 1)) =~= upper_seq(v@.take(i as int)).push(upper_char(v@[i as int])));
    }
    assert(v@.take(n as int) =~= v@);
    r
}

/// Whether `v` spells `s`.
fn chars_equal(v: &Vec<char>, s: &str) -> (r: bool)
    ensures
        r == (v@ == s@),
{
    let w = chars_of(s);
    if v.len() != w.len() {
        return false;
    }
    let mut i: usize = 0;
    while i < v.len()
        invariant
            i <= v.len() == w.len(),
            w@ == s@,
            forall|j: int| 0 <= j < i ==> v@[j] == w@[j],
        decreases v.len() - i,
    {
        if v[i] != w[i] {
            return false;
        }
        i = i + 1;
    }
    assert(v@ =~= w@);
    true
}

proof fn lemma_words_step(s: Seq<char>, i: int)
    requires
        0 <= i < s.len(),
    ensures
        is_whitespace(s[i]) ==> words(s.skip(i)) == words(s.skip(i + 1)),
        !is_whitespace(s[i]) ==> word_end(s, i) > i && words(s.skip(i)) == seq![
            s.subrange(i, word_end(s, i)),
        ] + words(s.skip(word_end(s, i))),
{
    let t = s.skip(i);
    assert(t[0] == s[i]);
    assert(t.drop_first() =~= s.skip(i + 1));
    if !is_whitespace(s[i]) {
        lemma_word_end_shift(s, i, i);
        lemma_word_end_bounds(s, i);
        let e = word_end(s, i);
        assert(word_end(t, 0) == e - i);
        assert(t.take(e - i) =~= s.subrange(i, e));
        assert(t.skip(e - i) =~= s.skip(e));
    }
}

proof fn lemma_word_end_shift(s: Seq<char>, i: int, k: int)
    requires
        0 <= i <= k <= s.len(),
    ensures
        word_end(s.skip(i), k - i) == word_end(s, k) - i,
    decreases s.len() - k,
{
    if k < s.len() {
        assert(s.skip(i)[k - i] == s[k]);
        lemma_word_end_shift(s, i, k + 1);
    }
}

proof fn lemma_join_push(ws: Seq<Seq<char>>, w: Seq<char>)
    ensures
        join_words(ws.push(w)) == if ws.len() == 0 {
            w
        } else {
            join_words(ws) + " "@ + w
        },
{
    assert(ws.push(w).drop_last() =~= ws);
}

/// A word title-cased.
fn title_word_exec(v: &Vec<char>, from: usize, to: usize, out: &mut Vec<char>)
    requires
        from < to <= v.len(),
    ensures
        final(out)@ == old(out)@ + title_word(v@.subrange(from as int, to as int)),
{
    let ghost w = v@.subrange(from as int, to as int);
    let c = v[from];
    let u = if 'a' <= c && c <= 'z' {
        let b: u8 = c as u8;
        let l: u8 = b - 32;
        l as char
    } else {
        c
    };
    out.push(u);
    let mut i = from + 1;
    while i < to
        invariant
            from < i <= to <= v.len(),
            w == v@.subrange(from as int, to as int),
            out@ == old(out)@ + seq![upper_char(w[0])] + lower_seq(w.drop_first().take(i - from - 1)),
        decreases to - i,
    {
        out.push(lower_char_exec(v[i]));
        assert(w.drop_first().take(i - from) =~= w.drop_first().take(i - from - 1).push(v@[i as int]));
        assert(lower_seq(w.drop_first().take(i - from)) =~= lower_seq(w.drop_first().take(i - from - 1)).push(lower_char(v@[i as int])));
        i = i + 1;
    }
    assert(w.drop_first().take(to - from - 1) =~= w.drop_first());
    assert(out@ =~= old(out)@ + title_word(w));
}

/// Every word title-cased, joined with single spaces.
fn title_case_exec(v: &Vec<char>) -> (r: Vec<char>)
    ensures
        r@ == title_case(v@),
{
    let ghost f = |w: Seq<char>| title_word(w);
    let mut out: Vec<char> = Vec::new();
    let ghost mut done: Seq<Seq<char>> = seq![];
    let n = v.len();
    let mut i: usize = 0;
    assert(v@.skip(0) =~= v@);
    while i < n
        invariant
            i <= n == v.len(),
            words(v@) == done + words(v@.skip(i as int)),
            out@ == join_words(done.map_values(|w: Seq<char>| title_word(w))),
            (out@.len() == 0) == (done.len() == 0),
        decreases n - i,
    {
        if is_whitespace_exec(v[i]) {
            proof {
                lemma_words_step(v@, i as int);
            }
            i = i + 1;
        } else {
            let mut e = i + 1;
            proof {
                lemma_words_step(v@, i as int);
                lemma_word_end_bounds(v@, i as int);
                lemma_word_end_bounds(v@, (i + 1) as int);
            }
            while e < n && !is_whitespace_exec(v[e])
                invariant
                    i < e <= n == v.len(),
                    word_end(v@, e as int) == word_end(v@, i as int),
                decreases n - e,
            {
                e = e + 1;
            }
            let ghost w = v@.subrange(i as int, e as int);
            let ghost before = done.map_values(|w: Seq<char>| title_word(w));
            if out.len() > 0 {
                out.push(' ');
            }
            title_word_exec(v, i, e, &mut out);
            proof {
                assert(done.push(w).map_values(|w: Seq<char>| title_word(w)) =~= before.push(title_word(w)));
                lemma_join_push(before, title_word(w));
                reveal_strlit(" ");
                assert(words(v@) =~= done.push(w) + words(v@.skip(e as int)));
                done = done.push(w);
            }
            i = e;
        }
    }
    assert(words(v@.skip(n as int)) =~= seq![]) by {
        assert(v@.skip(n as int).len() == 0);
    }
    assert(done + seq![] =~= done);
    out
}

/// The label made from an input name alone: '_' and '-' as spaces, and the
/// words joined with single spaces.
pub open spec fn name_label(name: Seq<char>) -> Seq<char> {
    join_words(words(dashes_to_spaces(name)))
}

/// The white-space separated words of `v` joined with single spaces.
fn join_words_exec(v: &Vec<char>) -> (r: Vec<char>)
    ensures
        r@ == join_words(words(v@)),
{
    let mut out: Vec<char> = Vec::new();
    let ghost mut done: Seq<Seq<char>> = seq![];
    let n = v.len();
    let mut i: usize = 0;
    assert(v@.skip(0) =~= v@);
    while i < n
        invariant
            i <= n == v.len(),
            words(v@) == done + words(v@.skip(i as int)),
            out@ == join_words(done),
            (out@.len() == 0) == (done.len() == 0),
            forall|k: int| 0 <= k < done.len() ==> #[trigger] done[k].len() > 0,
        decreases n - i,
    {
        if is_whitespace_exec(v[i]) {
            proof {
                lemma_words_step(v@, i as int);
            }
            i = i + 1;
        } else {
            let mut e = i + 1;
            proof {
                lemma_words_step(v@, i as int);
                lemma_word_end_bounds(v@, i as int);
                lemma_word_end_bounds(v@, (i + 1) as int);
            }
            while e < n && !is_whitespace_exec(v[e])
                invariant
                    i < e <= n == v.len(),
                    word_end(v@, e as int) == word_end(v@, i as int),
                decreases n - e,
            {
                e = e + 1;
            }
            let ghost w = v@.subrange(i as int, e as int);
            let ghost before = out@;
            if out.len() > 0 {
                out.push(' ');
            }
            proof {
                reveal_strlit(" ");
                assert(out@ =~= (if done.len() == 0 {
                    seq![]
                } else {
                    before + " "@
                }) + v@.subrange(i as int, i as int));
            }
            let mut k = i;
            while k < e
                invariant
                    i <= k <= e <= n == v.len(),
                    out@ == (if done.len() == 0 {
                        seq![]
                    } else {
                        before + " "@
                    }) + v@.subrange(i as int, k as int),
                decreases e - k,
            {
                out.push(v[k]);
                assert(v@.subrange(i as int, k + 1) =~= v@.subrange(i as int, k as int).push(
                    v@[k as int],
                ));
                k = k + 1;
            }
            proof {
                reveal_strlit(" ");
                lemma_join_push(done, w);
                assert(words(v@) =~= done.push(w) + words(v@.skip(e as int)));
                if done.len() == 0 {
                    assert(out@ =~= w);
                } else {
                    assert(out@ =~= join_words(done) + " "@ + w);
                }
                done = done.push(w);
            }
            i = e;
        }
    }
    assert(words(v@.skip(n as int)) =~= seq![]) by {
        assert(v@.skip(n as int).len() == 0);
    }
    assert(done + seq![] =~= done);
    out
}

/// The label made from an input name alone.
pub(crate) fn name_label_exec(name: &str) -> (r: String)
    ensures
        r@ == name_label(name@),
{
    let spaced = dashes_to_spaces_exec(&chars_of(name));
    string_of(&join_words_exec(&spaced))
}

/// Whether some character is an ASCII lower-case letter.
fn has_ascii_lower(v: &Vec<char>) -> (r: bool)
    ensures
        r == exists|i: int| 0 <= i < v@.len() && is_ascii_lower(#[trigger] v@[i]),
{
    let mut i: usize = 0;
    while i < v.len()
        invariant
            i <= v.len(),
            forall|j: int| 0 <= j < i ==> !is_ascii_lower(#[trigger] v@[j]),
        decreases v.len() - i,
    {
        if 'a' <= v[i] && v[i] <= 'z' {
            assert(is_ascii_lower(v@[i as int]));
            return true;
        }
        i = i + 1;
    }
    false
}

/// The label shown for a provider input.
pub fn asset_lab_input_label(input: &ProviderInputField) -> (r: String)
    ensures
        r@ == input_label_text(input.label@, input.name@),
{
    let label_trimmed = trim_chars(&chars_of(input.label.as_str()));
    let raw = if label_trimmed.len() == 0 {
        trim_chars(&chars_of(input.name.as_str()))
    } else {
        label_trimmed
    };
    let s1 = strip_prefix_all_exec(&raw, "LatentSlate ");
    let s2 = strip_prefix_all_exec(&s1, "LatentSlate_");
    let s3 = strip_prefix_all_exec(&s2, "latentslate ");
    let s4 = strip_prefix_all_exec(&s3, "latentslate_");
    let label = collapse_spaces_exec(&dashes_to_spaces_exec(&s4));
    let label_trim = trim_chars(&label);
    let normalized = upper_chars(&label_trim);
    let r = label_from_cleaned_exec(&label, &label_trim, &normalized);
    proof {
        let raw_s = if trim(input.label@).len() == 0 {
            trim(input.name@)
        } else {
            trim(input.label@)
        };
        assert(raw@ == raw_s);
        let stripped = strip_prefix_all(
            strip_prefix_all(
                strip_prefix_all(strip_prefix_all(raw_s, "LatentSlate "@), "LatentSlate_"@),
                "latentslate "@,
            ),
            "latentslate_"@,
        );
        assert(s4@ == stripped);
        assert(label@ == collapse_spaces(dashes_to_spaces(stripped)));
        assert(normalized@ == upper_seq(trim(label@)));
    }
    r
}

/// The label for a cleaned-up input label, given its trimmed and upper-cased forms.
fn label_from_cleaned_exec(label: &Vec<char>, label_trim: &Vec<char>, normalized: &Vec<char>) -> (r:
    String)
    requires
        label_trim@ == trim(label@),
        normalized@ == upper_seq(trim(label@)),
    ensures
        r@ == label_from_cleaned(label@),
{
    if chars_equal(normalized, "POS PROMPT") || chars_equal(normalized, "POSITIVE")
        || chars_equal(normalized, "POSITIVE PROMPT") {
        String::from_str("Positive Prompt")
    } else if chars_equal(normalized, "NEG PROMPT") || chars_equal(normalized, "NEGATIVE")
        || chars_equal(normalized, "NEGATIVE PROMPT") {
        String::from_str("Negative Prompt")
    } else if chars_equal(normalized, "LWDNESS") {
        String::from_str("Wildness")
    } else if chars_equal(normalized, "CFG") || chars_equal(normalized, "CFG SCALE") {
        String::from_str("CFG Scale")
    } else if chars_equal(normalized, "STEPS") {
        String::from_str("Steps")
    } else if chars_equal(normalized, "SEED") {
        String::from_str("Seed")
    } else if chars_equal(normalized, "WIDTH") {
        String::from_str("Width")
    } else if chars_equal(normalized, "HEIGHT") {
        String::from_str("Height")
    } else if has_ascii_lower(label) {
        string_of(label_trim)
    } else {
        string_of(&title_case_exec(label))
    }
}

/// How the seed changes between generations.
#[derive(Clone, Copy, Debug, PartialEq, Eq, Structural)]
pub enum SeedStrategy {
    Increment,
    Random,
    Keep,
}

/// The menu label of a seed strategy.
pub fn seed_strategy_label(strategy: SeedStrategy) -> (r: &'static str)
    ensures
        r@ == match strategy {
            SeedStrategy::Increment => "Increment"@,
            SeedStrategy::Random => "Random"@,
            SeedStrategy::Keep => "Keep"@,
        },
{
    match strategy {
        SeedStrategy::Increment => "Increment",
        SeedStrategy::Random => "Random",
        SeedStrategy::Keep => "Keep",
    }
}

/// The badge and explanation of the automation service's state: active
/// when it accepts requests, paused when its listener runs without
/// accepting them, off otherwise.
pub fn agent_api_status_text(server_started: bool, active: bool) -> (r: (&'static str, &'static str))
    ensures
        r.0@ == if active {
            "ACTIVE"@
        } else if server_started {
            "PAUSED"@
        } else {
            "OFF"@
        },
        r.1@ == if active {
            "Accepting automation requests from this device only."@
        } else if server_started {
            "The local listener is ready; automation requests are paused."@
        } else {
            "Enable the service to start the local listener."@
        },
{
    if active {
        ("ACTIVE", "Accepting automation requests from this device only.")
    } else if server_started {
        ("PAUSED", "The local listener is ready; automation requests are paused.")
    } else {
        ("OFF", "Enable the service to start the local listener.")
    }
}

} // verus!
