//! Annotations on members: reading one from its written form, and finding
//! what the annotations of a member ask for.
//!
//! The written form is `key = "value"`: a word, an equals sign and a quoted
//! literal, with blanks allowed around each of them and nothing else.

use crate::diagnostic::{malformed_annotation, Diagnostic, DiagnosticView};
use crate::schema::{Annotation, AnnotationView, MemberDescriptor, SourceLocation};
use crate::search::{least_below, lemma_least_below};
use crate::text::chars_of;
use vstd::prelude::*;
use vstd::string::*;

verus! {

/// The classes of characters that the written form is made of.
#[derive(Clone, Copy, Debug, PartialEq, Eq, Structural)]
pub enum CharClass {
    /// Blank, tab, line feed, carriage return.
    Space,
    /// ASCII letters, ASCII digits and the underscore.
    Word,
    /// Everything but the double quote.
    Body,
}

pub open spec fn is_space(c: char) -> bool {
    c == ' ' || c == '\t' || c == '\n' || c == '\r'
}

pub open spec fn is_word_char(c: char) -> bool {
    ('a' <= c && c <= 'z') || ('A' <= c && c <= 'Z') || ('0' <= c && c <= '9') || c == '_'
}

pub open spec fn in_class(class: CharClass, c: char) -> bool {
    match class {
        CharClass::Space => is_space(c),
        CharClass::Word => is_word_char(c),
        CharClass::Body => c != '"',
    }
}

/// Whether every character of `s` is in `class`.
pub open spec fn all_in_class(s: Seq<char>, class: CharClass) -> bool {
    forall|i: int| 0 <= i < s.len() ==> in_class(class, #[trigger] s[i])
}

/// The written form of an annotation with the given key and value, with the
/// given blanks around its parts.
pub open spec fn annotation_text(
    lead: Seq<char>,
    key: Seq<char>,
    before: Seq<char>,
    after: Seq<char>,
    value: Seq<char>,
    trail: Seq<char>,
) -> Seq<char> {
    lead + key + before + seq!['='] + after + seq!['"'] + value + seq!['"'] + trail
}

/// Whether `text` is a written form of the annotation `key = "value"`.
pub open spec fn spells(text: Seq<char>, key: Seq<char>, value: Seq<char>) -> bool {
    &&& key.len() > 0
    &&& all_in_class(key, CharClass::Word)
    &&& all_in_class(value, CharClass::Body)
    &&& exists|lead: Seq<char>, before: Seq<char>, after: Seq<char>, trail: Seq<char>|
        {
            &&& all_in_class(lead, CharClass::Space)
            &&& all_in_class(before, CharClass::Space)
            &&& all_in_class(after, CharClass::Space)
            &&& all_in_class(trail, CharClass::Space)
            &&& text == #[trigger] annotation_text(lead, key, before, after, value, trail)
        }
}

/// The end of the longest run of characters of `class` that starts at `from`.
pub open spec fn run_end(text: Seq<char>, from: int, class: CharClass) -> int
    decreases text.len() - from,
{
    if 0 <= from < text.len() && in_class(class, text[from]) {
        run_end(text, from + 1, class)
    } else {
        from
    }
}

/// Reads `text` from left to right as `key = "value"` and gives the key and
/// the value, or `None` where `text` is not of that form.
pub open spec fn scan(text: Seq<char>) -> Option<(Seq<char>, Seq<char>)> {
    let key_start = run_end(text, 0, CharClass::Space);
    let key_end = run_end(text, key_start, CharClass::Word);
    let equals = run_end(text, key_end, CharClass::Space);
    let open = run_end(text, equals + 1, CharClass::Space);
    let close = run_end(text, open + 1, CharClass::Body);
    let end = run_end(text, close + 1, CharClass::Space);
    if key_end == key_start {
        None
    } else if equals >= text.len() || text[equals] != '=' {
        None
    } else if open >= text.len() || text[open] != '"' {
        None
    } else if close >= text.len() {
        None
    } else if end != text.len() {
        None
    } else {
        Some((text.subrange(key_start, key_end), text.subrange(open + 1, close)))
    }
}

/// Where a run ends: at or after its start, with nothing but characters of
/// the class in between, and at a character that is not of the class or at
/// the end of the text.
pub proof fn lemma_run_end(text: Seq<char>, from: int, class: CharClass)
    requires
        0 <= from <= text.len(),
    ensures
        from <= run_end(text, from, class) <= text.len(),
        forall|i: int|
            from <= i < run_end(text, from, class) ==> in_class(class, #[trigger] text[i]),
        run_end(text, from, class) < text.len() ==> !in_class(
            class,
            text[run_end(text, from, class)],
        ),
    decreases text.len() - from,
{
    if from < text.len() && in_class(class, text[from]) {
        lemma_run_end(text, from + 1, class);
    }
}

/// A position with nothing but characters of the class before it, and none
/// of the class at it, is where the run ends.
pub proof fn lemma_run_end_is(text: Seq<char>, from: int, class: CharClass, end: int)
    requires
        0 <= from <= end <= text.len(),
        forall|i: int| from <= i < end ==> in_class(class, #[trigger] text[i]),
        end < text.len() ==> !in_class(class, text[end]),
    ensures
        run_end(text, from, class) == end,
    decreases end - from,
{
    if from < end {
        lemma_run_end_is(text, from + 1, class, end);
    }
}

/// Whatever [`scan`] reads is written in the text: the text is the key, the
/// equals sign and the quoted value, with blanks around them and nothing
/// else.
pub proof fn lemma_scan_sound(text: Seq<char>)
    ensures
        scan(text) matches Some(found) ==> spells(text, found.0, found.1),
{
    if scan(text) is Some {
        let key_start = run_end(text, 0, CharClass::Space);
        lemma_run_end(text, 0, CharClass::Space);
        let key_end = run_end(text, key_start, CharClass::Word);
        lemma_run_end(text, key_start, CharClass::Word);
        let equals = run_end(text, key_end, CharClass::Space);
        lemma_run_end(text, key_end, CharClass::Space);
        let open = run_end(text, equals + 1, CharClass::Space);
        lemma_run_end(text, equals + 1, CharClass::Space);
        let close = run_end(text, open + 1, CharClass::Body);
        lemma_run_end(text, open + 1, CharClass::Body);
        lemma_run_end(text, close + 1, CharClass::Space);
        let lead = text.subrange(0, key_start);
        let key = text.subrange(key_start, key_end);
        let before = text.subrange(key_end, equals);
        let after = text.subrange(equals + 1, open);
        let value = text.subrange(open + 1, close);
        let trail = text.subrange(close + 1, text.len() as int);
        assert(text =~= annotation_text(lead, key, before, after, value, trail));
    }
}

/// Every written form of an annotation is read by [`scan`], as the key and
/// the value that it spells.
pub proof fn lemma_scan_complete(text: Seq<char>, key: Seq<char>, value: Seq<char>)
    requires
        spells(text, key, value),
    ensures
        scan(text) == Some((key, value)),
{
    let (lead, before, after, trail) = choose|
        lead: Seq<char>,
        before: Seq<char>,
        after: Seq<char>,
        trail: Seq<char>,
    |
        {
            &&& all_in_class(lead, CharClass::Space)
            &&& all_in_class(before, CharClass::Space)
            &&& all_in_class(after, CharClass::Space)
            &&& all_in_class(trail, CharClass::Space)
            &&& text == #[trigger] annotation_text(lead, key, before, after, value, trail)
        };
    let key_start = lead.len() as int;
    let key_end = key_start + key.len();
    let equals = key_end + before.len();
    let open = equals + 1 + after.len();
    let close = open + 1 + value.len();
    lemma_run_end_is(text, 0, CharClass::Space, key_start);
    lemma_run_end_is(text, key_start, CharClass::Word, key_end);
    lemma_run_end_is(text, key_end, CharClass::Space, equals);
    lemma_run_end_is(text, equals + 1, CharClass::Space, open);
    lemma_run_end_is(text, open + 1, CharClass::Body, close);
    lemma_run_end_is(text, close + 1, CharClass::Space, text.len() as int);
}

fn belongs(class: CharClass, c: char) -> (r: bool)
    ensures
        r == in_class(class, c),
{
    match class {
        CharClass::Space => c == ' ' || c == '\t' || c == '\n' || c == '\r',
        CharClass::Word => ('a' <= c && c <= 'z') || ('A' <= c && c <= 'Z') || ('0' <= c && c
            <= '9') || c == '_',
        CharClass::Body => c != '"',
    }
}

fn skip_run(text: &Vec<char>, from: usize, class: CharClass) -> (end: usize)
    requires
        from <= text.len(),
    ensures
        end == run_end(text@, from as int, class),
        from <= end <= text.len(),
{
    let mut i: usize = from;
    while i < text.len() && belongs(class, text[i])
        invariant
            from <= i <= text.len(),
            run_end(text@, from as int, class) == run_end(text@, i as int, class),
        decreases text.len() - i,
    {
        i += 1;
    }
    i
}

fn has_at(text: &Vec<char>, at: usize, c: char) -> (r: bool)
    ensures
        r == (at < text.len() && text@[at as int] == c),
{
    at < text.len() && text[at] == c
}

/// Reads an annotation from its written form.
///
/// Succeeds exactly on the texts of the form `key = "value"`, with the key
/// and the value as written; any other text is a malformed annotation,
/// reported at `location`.
pub fn parse_annotation(text: &str, location: SourceLocation) -> (r: Result<
    Annotation,
    Diagnostic,
>)
    ensures
        match r {
            Ok(a) => {
                &&& spells(text@, a.key@, a.value@)
                &&& scan(text@) == Some((a.key@, a.value@))
                &&& a.location == location
            },
            Err(d) => {
                &&& forall|key: Seq<char>, value: Seq<char>| !spells(text@, key, value)
                &&& scan(text@) is None
                &&& d@ == malformed_annotation(location)
            },
        },
{
    proof {
        lemma_scan_sound(text@);
        assert forall|key: Seq<char>, value: Seq<char>| spells(text@, key, value) implies scan(
            text@,
        ) is Some by {
            lemma_scan_complete(text@, key, value);
        }
    }
    let chars = chars_of(text);
    let n = chars.len();
    let key_start = skip_run(&chars, 0, CharClass::Space);
    let key_end = skip_run(&chars, key_start, CharClass::Word);
    let equals = skip_run(&chars, key_end, CharClass::Space);
    if key_end == key_start || !has_at(&chars, equals, '=') {
        return Err(Diagnostic::malformed_annotation(location));
    }
    let open = skip_run(&chars, equals + 1, CharClass::Space);
    if !has_at(&chars, open, '"') {
        return Err(Diagnostic::malformed_annotation(location));
    }
    let close = skip_run(&chars, open + 1, CharClass::Body);
    if close >= n {
        return Err(Diagnostic::malformed_annotation(location));
    }
    let end = skip_run(&chars, close + 1, CharClass::Space);
    if end != n {
        return Err(Diagnostic::malformed_annotation(location));
    }
    let key = String::from_str(text.substring_char(key_start, key_end));
    let value = String::from_str(text.substring_char(open + 1, close));
    Ok(Annotation { key, value, location })
}

/// Whether an annotation is one that the builder understands.
pub open spec fn is_recognized(annotation: AnnotationView) -> bool {
    annotation.key == "each"@
}

/// What one annotation asks for: the setter name that it gives, or the
/// diagnostic, at the annotation, where it is not recognized.
pub open spec fn decoded(annotation: AnnotationView) -> Result<Seq<char>, DiagnosticView> {
    if is_recognized(annotation) {
        Ok(annotation.value)
    } else {
        Err(malformed_annotation(annotation.location))
    }
}

/// What the annotations of one member ask for.
///
/// Every annotation has to be recognized: the first one that is not gives
/// the diagnostic, at that annotation. Where all are, the first annotation
/// names the setter; a member without annotations asks for nothing.
pub open spec fn each_directive(annotations: Seq<AnnotationView>) -> Result<
    Option<Seq<char>>,
    DiagnosticView,
>
    decreases annotations.len(),
{
    if annotations.len() == 0 {
        Ok(None)
    } else {
        match decoded(annotations[0]) {
            Err(d) => Err(d),
            Ok(setter) => match each_directive(annotations.drop_first()) {
                Err(d) => Err(d),
                Ok(_) => Ok(Some(setter)),
            },
        }
    }
}

/// Decodes one annotation.
///
/// Gives the value of the annotation, which names a setter, exactly where
/// the key is `each`; any other key is a malformed annotation, reported at
/// the annotation.
pub fn decode_annotation(annotation: &Annotation) -> (r: Result<&String, Diagnostic>)
    ensures
        match r {
            Ok(setter) => decoded(annotation@) == Ok::<Seq<char>, DiagnosticView>(setter@),
            Err(d) => decoded(annotation@) == Err::<Seq<char>, DiagnosticView>(d@),
        },
{
    if annotation.key == String::from_str("each") {
        Ok(&annotation.value)
    } else {
        Err(Diagnostic::malformed_annotation(annotation.location))
    }
}

/// The first annotation that is not recognized gives the diagnostic.
pub proof fn lemma_each_directive_fails(annotations: Seq<AnnotationView>, k: int)
    requires
        0 <= k < annotations.len(),
        !is_recognized(annotations[k]),
        forall|j: int| 0 <= j < k ==> is_recognized(#[trigger] annotations[j]),
    ensures
        each_directive(annotations) == Err::<Option<Seq<char>>, DiagnosticView>(
            malformed_annotation(annotations[k].location),
        ),
    decreases k,
{
    if k > 0 {
        let rest = annotations.drop_first();
        lemma_each_directive_fails(rest, k - 1);
    }
}

/// Where every annotation is recognized, the first names the setter.
pub proof fn lemma_each_directive_succeeds(annotations: Seq<AnnotationView>)
    requires
        forall|j: int| 0 <= j < annotations.len() ==> is_recognized(#[trigger] annotations[j]),
    ensures
        each_directive(annotations) == Ok::<Option<Seq<char>>, DiagnosticView>(
            if annotations.len() == 0 {
                None
            } else {
                Some(annotations[0].value)
            },
        ),
    decreases annotations.len(),
{
    if annotations.len() > 0 {
        let rest = annotations.drop_first();
        lemma_each_directive_succeeds(rest);
    }
}

/// [`each_directive`] fails exactly where some annotation is not recognized.
pub proof fn lemma_each_directive(annotations: Seq<AnnotationView>)
    ensures
        each_directive(annotations) is Ok <==> forall|j: int|
            0 <= j < annotations.len() ==> is_recognized(#[trigger] annotations[j]),
{
    if forall|j: int| 0 <= j < annotations.len() ==> is_recognized(#[trigger] annotations[j]) {
        lemma_each_directive_succeeds(annotations);
    } else {
        let some = choose|j: int| 0 <= j < annotations.len() && !is_recognized(annotations[j]);
        let unrecognized = |j: int| 0 <= j < annotations.len() && !is_recognized(annotations[j]);
        lemma_least_below(annotations.len() as int, unrecognized);
        assert(unrecognized(some));
        let k = least_below(annotations.len() as int, unrecognized)->0;
        assert forall|j: int| 0 <= j < k implies is_recognized(#[trigger] annotations[j]) by {
            assert(!unrecognized(j));
        }
        lemma_each_directive_fails(annotations, k);
    }
}

/// The view of the result of [`get_user_specified_ident_for_vec`].
pub open spec fn directive_view(r: Result<Option<String>, Diagnostic>) -> Result<
    Option<Seq<char>>,
    DiagnosticView,
> {
    match r {
        Ok(Some(name)) => Ok(Some(name@)),
        Ok(None) => Ok(None),
        Err(d) => Err(d@),
    }
}

/// The setter name that the annotations of `field` ask for, if any.
///
/// Fails exactly where an annotation of the member has another key than
/// `each`, with a malformed-annotation diagnostic at the first such
/// annotation. Otherwise the value of the first annotation is the name, and
/// a member without annotations has none.
pub fn get_user_specified_ident_for_vec(field: &MemberDescriptor) -> (r: Result<
    Option<String>,
    Diagnostic,
>)
    ensures
        directive_view(r) == each_directive(field@.annotations),
        r is Ok <==> forall|j: int|
            0 <= j < field@.annotations.len() ==> is_recognized(#[trigger] field@.annotations[j]),
{
    let ghost all = field@.annotations;
    proof {
        lemma_each_directive(all);
    }
    let mut first: Option<&String> = None;
    let mut i: usize = 0;
    while i < field.annotations.len()
        invariant
            i <= field.annotations.len(),
            all == field@.annotations,
            forall|j: int| 0 <= j < i ==> is_recognized(#[trigger] all[j]),
            match first {
                Some(setter) => i > 0 && setter@ == all[0].value,
                None => i == 0,
            },
        decreases field.annotations.len() - i,
    {
        match decode_annotation(&field.annotations[i]) {
            Ok(setter) => {
                if first.is_none() {
                    first = Some(setter);
                }
            },
            Err(d) => {
                proof {
                    lemma_each_directive_fails(all, i as int);
                }
                return Err(d);
            },
        }
        i += 1;
    }
    proof {
        lemma_each_directive_succeeds(all);
    }
    match first {
        Some(setter) => Ok(Some(setter.clone())),
        None => Ok(None),
    }
}

} // verus!
