//! Stylesheet scanning: comment stripping, class-name collection and
//! the identifiers generated for each class.

use vstd::prelude::*;
use crate::text::{
    alnum_char, chars_of, digit_char, is_digit, contains_string, is_alnum, push_char, string_of_range, trim_start_index,
    trim_start_spec,
};

verus! {

/// What remains of `s` after the end of a block comment whose body starts at `s`;
/// `prev` is the character read just before `s` inside the comment.
/// When the comment never closes, nothing remains.
pub open spec fn comment_tail(s: Seq<char>, prev: char) -> Seq<char>
    decreases s.len(),
{
    if s.len() == 0 {
        s
    } else if prev == '*' && s[0] == '/' {
        s.skip(1)
    } else {
        comment_tail(s.skip(1), s[0])
    }
}

pub proof fn lemma_comment_tail_shorter(s: Seq<char>, prev: char)
    ensures
        comment_tail(s, prev).len() <= s.len(),
    decreases s.len(),
{
    if s.len() > 0 && !(prev == '*' && s[0] == '/') {
        lemma_comment_tail_shorter(s.skip(1), s[0]);
    }
}

/// Whether `c` opens a quoted string.
pub open spec fn is_quote(c: char) -> bool {
    c == '"' || c == '\''
}

/// The length of the rest of a string quoted with `quote` whose body starts at
/// `s`, closing quote included (all of `s` when the string never closes);
/// `escaped` tells whether the character before `s` was an escaping backslash.
pub open spec fn quoted_len(s: Seq<char>, quote: char, escaped: bool) -> nat
    decreases s.len(),
{
    if s.len() == 0 {
        0
    } else if escaped {
        1 + quoted_len(s.skip(1), quote, false)
    } else if s[0] == '\\' {
        1 + quoted_len(s.skip(1), quote, true)
    } else if s[0] == quote {
        1
    } else {
        1 + quoted_len(s.skip(1), quote, false)
    }
}

pub proof fn lemma_quoted_len_bound(s: Seq<char>, quote: char, escaped: bool)
    ensures
        quoted_len(s, quote, escaped) <= s.len(),
    decreases s.len(),
{
    if s.len() > 0 {
        lemma_quoted_len_bound(s.skip(1), quote, false);
        lemma_quoted_len_bound(s.skip(1), quote, true);
    }
}

/// `s` with every `/* ... */` block comment removed; an unterminated comment
/// removes the rest of the text. Quoted strings are kept as they are, so a
/// comment marker inside a string opens no comment.
pub open spec fn strip_comments_spec(s: Seq<char>) -> Seq<char>
    decreases s.len(),
{
    if s.len() == 0 {
        Seq::empty()
    } else if s.len() >= 2 && s[0] == '/' && s[1] == '*' {
        proof {
            lemma_comment_tail_shorter(s.skip(2), ' ');
        }
        strip_comments_spec(comment_tail(s.skip(2), ' '))
    } else if is_quote(s[0]) {
        let n: int = 1 + quoted_len(s.skip(1), s[0], false) as int;
        proof {
            lemma_quoted_len_bound(s.skip(1), s[0], false);
        }
        s.take(n) + strip_comments_spec(s.skip(n))
    } else {
        seq![s[0]] + strip_comments_spec(s.skip(1))
    }
}

/// Strips `/* ... */` block comments from CSS source.
pub fn strip_css_comments(css: &str) -> (res: String)
    ensures
        res@ == strip_comments_spec(css@),
{
    let chars = chars_of(css);
    let n = chars.len();
    let mut result = String::new();
    let mut i: usize = 0;
    assert(chars@.skip(0) =~= chars@);
    assert(result@ + strip_comments_spec(chars@) =~= strip_comments_spec(chars@));
    while i < n
        invariant
            n == chars@.len(),
            chars@ == css@,
            i <= n,
            result@ + strip_comments_spec(chars@.skip(i as int)) == strip_comments_spec(css@),
        decreases n - i,
    {
        let c = chars[i];
        if c == '/' && i + 1 < n && chars[i + 1] == '*' {
            let ghost start = (i + 2) as int;
            assert(chars@.skip(i as int).skip(2) =~= chars@.skip(start));
            i = i + 2;
            let mut prev = ' ';
            while i < n
                invariant_except_break
                    comment_tail(chars@.skip(i as int), prev) == comment_tail(chars@.skip(start), ' '),
                invariant
                    n == chars@.len(),
                    start <= i <= n,
                ensures
                    chars@.skip(i as int) == comment_tail(chars@.skip(start), ' '),
                decreases n - i,
            {
                let c2 = chars[i];
                assert(chars@.skip(i as int).skip(1) =~= chars@.skip(i + 1));
                i = i + 1;
                if prev == '*' && c2 == '/' {
                    break;
                }
                prev = c2;
            }
        } else if c == '"' || c == '\'' {
            let ghost i0 = i as int;
            let ghost start = i0 + 1;
            let ghost total: int = quoted_len(chars@.skip(start), c, false) as int;
            let ghost base = result@;
            proof {
                lemma_quoted_len_bound(chars@.skip(start), c, false);
                assert(chars@.skip(i0).skip(1) =~= chars@.skip(start));
            }
            push_char(&mut result, c);
            i = i + 1;
            let mut escaped = false;
            let mut done = false;
            while i < n && !done
                invariant
                    n == chars@.len(),
                    start <= i <= n,
                    0 <= i0,
                    i0 + 1 == start,
                    chars@[i0] == c,
                    total == quoted_len(chars@.skip(start), c, false),
                    total <= n - start,
                    !done ==> (i - start) + quoted_len(chars@.skip(i as int), c, escaped) == total,
                    done ==> i - start == total,
                    result@ == base + chars@.subrange(i0, i as int),
                decreases n - i,
            {
                let c2 = chars[i];
                assert(chars@.skip(i as int).skip(1) =~= chars@.skip(i + 1));
                assert(chars@.subrange(i0, i + 1) =~= chars@.subrange(i0, i as int).push(c2));
                push_char(&mut result, c2);
                i = i + 1;
                if escaped {
                    escaped = false;
                } else if c2 == '\\' {
                    escaped = true;
                } else if c2 == c {
                    done = true;
                }
            }
            proof {
                if !done {
                    assert(chars@.skip(i as int) =~= Seq::<char>::empty());
                }
                let sk = chars@.skip(i0);
                assert(sk[0] == c);
                assert(sk.skip(1) =~= chars@.skip(start));
                assert(sk.take(1 + total) =~= chars@.subrange(i0, i as int));
                assert(sk.skip(1 + total) =~= chars@.skip(i as int));
            }
        } else {
            push_char(&mut result, c);
            assert(chars@.skip(i as int).skip(1) =~= chars@.skip(i + 1));
            i = i + 1;
        }
    }
    assert(chars@.skip(n as int) =~= Seq::<char>::empty());
    result
}


/// A character that may appear in a class name after the dot.
pub open spec fn is_class_char(c: char) -> bool {
    is_alnum(c) || c == '-' || c == '_'
}

/// Length of the run of class-name characters at the start of `s`.
pub open spec fn class_run_len(s: Seq<char>) -> nat
    decreases s.len(),
{
    if s.len() > 0 && is_class_char(s[0]) {
        1 + class_run_len(s.skip(1))
    } else {
        0
    }
}

/// The class names written in a selector, in order of appearance, repeats included:
/// each `.` followed by a non-empty run of class-name characters names one class.
pub open spec fn selector_classes(s: Seq<char>) -> Seq<Seq<char>>
    decreases s.len(),
{
    if s.len() == 0 {
        Seq::empty()
    } else if s[0] == '.' && class_run_len(s.skip(1)) > 0 {
        let r = class_run_len(s.skip(1)) as int;
        proof {
            lemma_class_run_len_bound(s.skip(1));
        }
        seq![s.subrange(1, 1 + r)] + selector_classes(s.skip(1 + r))
    } else {
        selector_classes(s.skip(1))
    }
}

pub proof fn lemma_class_run_len_bound(s: Seq<char>)
    ensures
        class_run_len(s) <= s.len(),
    decreases s.len(),
{
    if s.len() > 0 && is_class_char(s[0]) {
        lemma_class_run_len_bound(s.skip(1));
    }
}

proof fn lemma_class_run_len_exact(s: Seq<char>, k: int)
    requires
        0 <= k <= s.len(),
        forall|j: int| 0 <= j < k ==> is_class_char(#[trigger] s[j]),
        k == s.len() || !is_class_char(s[k]),
    ensures
        class_run_len(s) == k,
    decreases k,
{
    if k > 0 {
        assert forall|j: int| 0 <= j < k - 1 implies is_class_char(#[trigger] s.skip(1)[j]) by {
            assert(s.skip(1)[j] == s[j + 1]);
        }
        lemma_class_run_len_exact(s.skip(1), k - 1);
    }
}

/// `classes` extended, in order, by each name of `names` it does not yet hold.
pub open spec fn add_unique(classes: Seq<Seq<char>>, names: Seq<Seq<char>>) -> Seq<Seq<char>>
    decreases names.len(),
{
    if names.len() == 0 {
        classes
    } else {
        let next = if classes.contains(names[0]) {
            classes
        } else {
            classes.push(names[0])
        };
        add_unique(next, names.skip(1))
    }
}

/// Whether the selector text opens an at-rule (its first non-blank character is `@`).
pub open spec fn starts_at_rule(s: Seq<char>) -> bool {
    trim_start_spec(s).len() > 0 && trim_start_spec(s)[0] == '@'
}

fn opens_at_rule(s: &Vec<char>) -> (b: bool)
    ensures
        b == starts_at_rule(s@),
{
    let i = trim_start_index(s);
    i < s.len() && s[i] == '@'
}

/// Appends to `classes`, in order, each class named in `selector` that is not
/// already listed; a selector that opens an at-rule names no class.
pub fn push_classes_from_selector(selector: &str, classes: &mut Vec<String>)
    ensures
        final(classes).deep_view() == (if starts_at_rule(selector@) {
            old(classes).deep_view()
        } else {
            add_unique(old(classes).deep_view(), selector_classes(selector@))
        }),
{
    let s = chars_of(selector);
    if opens_at_rule(&s) {
        return;
    }
    let n = s.len();
    let ghost target = add_unique(old(classes).deep_view(), selector_classes(selector@));
    let mut idx: usize = 0;
    assert(s@.skip(0) =~= s@);
    while idx < n
        invariant
            n == s@.len(),
            s@ == selector@,
            idx <= n,
            add_unique(classes.deep_view(), selector_classes(s@.skip(idx as int))) == target,
        decreases n - idx,
    {
        if s[idx] != '.' {
            assert(s@.skip(idx as int).skip(1) =~= s@.skip(idx + 1));
            idx = idx + 1;
            continue;
        }
        let start = idx + 1;
        let mut end = start;
        while end < n && (alnum_char(s[end]) || s[end] == '-' || s[end] == '_')
            invariant
                n == s@.len(),
                start <= end <= n,
                forall|j: int| start <= j < end ==> is_class_char(#[trigger] s@[j]),
            decreases n - end,
        {
            end = end + 1;
        }
        proof {
            let t = s@.skip(start as int);
            assert forall|j: int| 0 <= j < end - start implies is_class_char(#[trigger] t[j]) by {
                assert(t[j] == s@[start + j]);
            }
            lemma_class_run_len_exact(t, end - start);
            assert(s@.skip(idx as int).skip(1) =~= t);
        }
        if end > start {
            let class_name = string_of_range(&s, start, end);
            proof {
                assert(s@.skip(idx as int).subrange(1, 1 + (end - start)) =~= class_name@);
                assert(s@.skip(idx as int).skip(1 + (end - start)) =~= s@.skip(end as int));
                assert(seq![class_name@].skip(1) =~= Seq::<Seq<char>>::empty());
                assert((seq![class_name@] + selector_classes(s@.skip(end as int))).skip(1)
                    =~= selector_classes(s@.skip(end as int)));
            }
            let ghost before = classes.deep_view();
            if !contains_string(classes, &class_name) {
                classes.push(class_name);
                assert(classes.deep_view() =~= before.push(class_name@));
            }
            idx = end;
        } else {
            assert(s@.skip(idx as int).skip(1) =~= s@.skip(idx + 1));
            idx = start;
        }
    }
    assert(s@.skip(n as int) =~= Seq::<char>::empty());
}


/// What remains of `s` after a quoted string whose body starts at `s` and that is
/// closed by `q`; a backslash escapes the character after it.
pub open spec fn quote_tail(s: Seq<char>, q: char, escaped: bool) -> Seq<char>
    decreases s.len(),
{
    if s.len() == 0 {
        s
    } else if escaped {
        quote_tail(s.skip(1), q, false)
    } else if s[0] == '\\' {
        quote_tail(s.skip(1), q, true)
    } else if s[0] == q {
        s.skip(1)
    } else {
        quote_tail(s.skip(1), q, false)
    }
}

pub proof fn lemma_quote_tail_shorter(s: Seq<char>, q: char, escaped: bool)
    ensures
        quote_tail(s, q, escaped).len() <= s.len(),
    decreases s.len(),
{
    if s.len() > 0 {
        if escaped {
            lemma_quote_tail_shorter(s.skip(1), q, false);
        } else if s[0] == '\\' {
            lemma_quote_tail_shorter(s.skip(1), q, true);
        } else if s[0] != q {
            lemma_quote_tail_shorter(s.skip(1), q, false);
        }
    }
}

/// Whether text read at this nesting is selector text: at top level, or directly
/// inside an at-rule block (`true` on the stack marks an at-rule block).
pub open spec fn in_selector_context(stack: Seq<bool>) -> bool {
    stack.len() == 0 || stack.last()
}

/// The class list after scanning `s`, given the selector text read so far,
/// the stack of open blocks, and the classes found before.
/// Quoted strings are skipped; `{` closes a selector (an at-rule prelude names
/// no class); `}` closes a block; `;` at top level ends an at-rule without a body;
/// any other character is selector text only in selector context.
pub open spec fn scan_classes(
    s: Seq<char>,
    current: Seq<char>,
    stack: Seq<bool>,
    classes: Seq<Seq<char>>,
) -> Seq<Seq<char>>
    decreases s.len(),
{
    if s.len() == 0 {
        classes
    } else {
        let c = s[0];
        let rest = s.skip(1);
        if c == '"' || c == '\'' {
            proof {
                lemma_quote_tail_shorter(rest, c, false);
            }
            scan_classes(quote_tail(rest, c, false), current, stack, classes)
        } else if c == '{' {
            let at = starts_at_rule(current);
            scan_classes(
                rest,
                Seq::empty(),
                stack.push(at),
                if at {
                    classes
                } else {
                    add_unique(classes, selector_classes(current))
                },
            )
        } else if c == '}' {
            scan_classes(
                rest,
                Seq::empty(),
                if stack.len() > 0 {
                    stack.drop_last()
                } else {
                    stack
                },
                classes,
            )
        } else if c == ';' && stack.len() == 0 {
            scan_classes(rest, Seq::empty(), stack, classes)
        } else {
            scan_classes(
                rest,
                if in_selector_context(stack) {
                    current.push(c)
                } else {
                    current
                },
                stack,
                classes,
            )
        }
    }
}

/// The distinct class names of a stylesheet, in order of first appearance.
pub open spec fn stylesheet_classes(css: Seq<char>) -> Seq<Seq<char>> {
    scan_classes(strip_comments_spec(css), Seq::empty(), Seq::empty(), Seq::empty())
}

/// Extracts the unique CSS class names of a stylesheet, in order of first appearance.
///
/// Comments, quoted strings, at-rules without a body (`@charset`, `@import`) and
/// declarations are skipped; rules nested in at-rules (`@media`, `@supports`,
/// `@layer`) are read.
pub fn collect_classes(css: &str) -> (classes: Vec<String>)
    ensures
        classes.deep_view() == stylesheet_classes(css@),
{
    let stripped = strip_css_comments(css);
    let s = chars_of(stripped.as_str());
    let n = s.len();
    let ghost target = stylesheet_classes(css@);
    let mut classes: Vec<String> = Vec::new();
    let mut current = String::new();
    let mut block_stack: Vec<bool> = Vec::new();
    let mut i: usize = 0;
    assert(s@.skip(0) =~= s@);
    assert(classes.deep_view() =~= Seq::<Seq<char>>::empty());
    while i < n
        invariant
            n == s@.len(),
            i <= n,
            scan_classes(s@.skip(i as int), current@, block_stack@, classes.deep_view()) == target,
        decreases n - i,
    {
        let ch = s[i];
        assert(s@.skip(i as int).skip(1) =~= s@.skip(i + 1));
        i = i + 1;
        if ch == '"' || ch == '\'' {
            let ghost start = i as int;
            let mut escaped = false;
            while i < n
                invariant_except_break
                    quote_tail(s@.skip(i as int), ch, escaped) == quote_tail(s@.skip(start), ch, false),
                invariant
                    n == s@.len(),
                    start <= i <= n,
                ensures
                    s@.skip(i as int) == quote_tail(s@.skip(start), ch, false),
                decreases n - i,
            {
                let c = s[i];
                assert(s@.skip(i as int).skip(1) =~= s@.skip(i + 1));
                i = i + 1;
                if escaped {
                    escaped = false;
                } else if c == '\\' {
                    escaped = true;
                } else if c == ch {
                    break;
                }
            }
        } else if ch == '{' {
            let cur = chars_of(current.as_str());
            let is_at_rule = opens_at_rule(&cur);
            if !is_at_rule {
                push_classes_from_selector(current.as_str(), &mut classes);
            }
            current = String::new();
            block_stack.push(is_at_rule);
        } else if ch == '}' {
            block_stack.pop();
            current = String::new();
        } else if ch == ';' && block_stack.len() == 0 {
            current = String::new();
        } else {
            let in_selector_ctx = block_stack.len() == 0 || block_stack[block_stack.len() - 1];
            if in_selector_ctx {
                push_char(&mut current, ch);
            }
        }
    }
    classes
}


/// The character a class-name character becomes in an identifier.
pub open spec fn ident_char(c: char) -> char {
    if is_alnum(c) || c == '_' {
        c
    } else {
        '_'
    }
}

/// The identifier generated for a class name: every character that is not an ASCII
/// letter, digit or `_` becomes `_`, and a leading digit gets a `_` in front.
pub open spec fn class_ident(name: Seq<char>) -> Seq<char> {
    let mapped = name.map_values(|c: char| ident_char(c));
    if name.len() > 0 && is_digit(name[0]) {
        seq!['_'] + mapped
    } else {
        mapped
    }
}

/// Converts a CSS class name into the identifier of its generated constant.
pub fn class_name_to_ident(class_name: &str) -> (ident: String)
    ensures
        ident@ == class_ident(class_name@),
{
    let chars = chars_of(class_name);
    let mut ident = String::new();
    let mut idx: usize = 0;
    let ghost prefix: Seq<char> = if chars@.len() > 0 && is_digit(chars@[0]) {
        seq!['_']
    } else {
        Seq::empty()
    };
    while idx < chars.len()
        invariant
            chars@ == class_name@,
            idx <= chars.len(),
            prefix == (if chars@.len() > 0 && is_digit(chars@[0]) {
                seq!['_']
            } else {
                Seq::<char>::empty()
            }),
            idx == 0 ==> ident@ == Seq::<char>::empty(),
            idx > 0 ==> ident@ == prefix + chars@.take(idx as int).map_values(|c: char| ident_char(c)),
        decreases chars.len() - idx,
    {
        let ch = chars[idx];
        let sanitized = if alnum_char(ch) || ch == '_' {
            ch
        } else {
            '_'
        };
        if idx == 0 && digit_char(sanitized) {
            push_char(&mut ident, '_');
        }
        push_char(&mut ident, sanitized);
        assert(chars@.take(idx + 1).map_values(|c: char| ident_char(c)) =~= chars@.take(
            idx as int,
        ).map_values(|c: char| ident_char(c)).push(sanitized));
        idx = idx + 1;
    }
    assert(chars@.take(chars@.len() as int) =~= chars@);
    if chars.len() == 0 {
        assert(class_ident(class_name@) =~= Seq::<char>::empty());
    }
    ident
}

/// The `(identifier, class name)` pair of each constant generated for a stylesheet,
/// one per distinct class, in order of first appearance.
pub fn style_constants(css: &str) -> (constants: Vec<(String, String)>)
    ensures
        constants@.len() == stylesheet_classes(css@).len(),
        forall|k: int|
            0 <= k < constants@.len() ==> {
                &&& (#[trigger] constants@[k]).1@ == stylesheet_classes(css@)[k]
                &&& constants@[k].0@ == class_ident(stylesheet_classes(css@)[k])
            },
{
    let classes = collect_classes(css);
    let mut constants: Vec<(String, String)> = Vec::new();
    let mut k: usize = 0;
    while k < classes.len()
        invariant
            k <= classes.len(),
            classes.deep_view() == stylesheet_classes(css@),
            constants@.len() == k,
            forall|j: int|
                0 <= j < k ==> {
                    &&& (#[trigger] constants@[j]).1@ == stylesheet_classes(css@)[j]
                    &&& constants@[j].0@ == class_ident(stylesheet_classes(css@)[j])
                },
        decreases classes.len() - k,
    {
        let class_name = classes[k].clone();
        assert(classes.deep_view()[k as int] == classes@[k as int]@);
        let ident = class_name_to_ident(class_name.as_str());
        constants.push((ident, class_name));
        k = k + 1;
    }
    constants
}

/// Where a `component_styles` path is resolved from.
#[derive(Debug, PartialEq, Eq)]
pub enum CssPathBase {
    /// `./` and `../` paths: relative to the source file holding the attribute.
    SourceFile,
    /// Any other path, with its leading `/` characters removed: relative to the
    /// crate root.
    CrateRoot(String),
}

/// `s` without its leading `/` characters (`str::trim_start_matches('/')`).
pub open spec fn trim_leading_slashes(s: Seq<char>) -> Seq<char>
    decreases s.len(),
{
    if s.len() > 0 && s[0] == '/' {
        trim_leading_slashes(s.skip(1))
    } else {
        s
    }
}

/// Whether a path starts with `./` or `../`.
pub open spec fn is_source_relative(s: Seq<char>) -> bool {
    (s.len() >= 2 && s[0] == '.' && s[1] == '/') || (s.len() >= 3 && s[0] == '.' && s[1] == '.'
        && s[2] == '/')
}

/// Classifies the path given to `component_styles`.
pub fn css_path_base(raw_path: &str) -> (base: CssPathBase)
    ensures
        is_source_relative(raw_path@) ==> base == CssPathBase::SourceFile,
        !is_source_relative(raw_path@) ==> (base matches CssPathBase::CrateRoot(rest) && rest@
            == trim_leading_slashes(raw_path@)),
{
    let s = chars_of(raw_path);
    let n = s.len();
    if (n >= 2 && s[0] == '.' && s[1] == '/') || (n >= 3 && s[0] == '.' && s[1] == '.' && s[2]
        == '/') {
        return CssPathBase::SourceFile;
    }
    let mut i: usize = 0;
    assert(s@.skip(0) =~= s@);
    while i < n && s[i] == '/'
        invariant
            n == s@.len(),
            i <= n,
            trim_leading_slashes(s@.skip(i as int)) == trim_leading_slashes(s@),
        decreases n - i,
    {
        assert(s@.skip(i as int).skip(1) =~= s@.skip(i + 1));
        i = i + 1;
    }
    let rest = string_of_range(&s, i, n);
    assert(s@.subrange(i as int, n as int) =~= s@.skip(i as int));
    CssPathBase::CrateRoot(rest)
}


/// A non-empty name made only of class-name characters.
pub open spec fn is_class_name(x: Seq<char>) -> bool {
    x.len() > 0 && forall|i: int| 0 <= i < x.len() ==> is_class_char(#[trigger] x[i])
}

proof fn lemma_selector_classes_valid(s: Seq<char>)
    ensures
        forall|k: int|
            0 <= k < selector_classes(s).len() ==> is_class_name(#[trigger] selector_classes(s)[k]),
    decreases s.len(),
{
    if s.len() == 0 {
    } else if s[0] == '.' && class_run_len(s.skip(1)) > 0 {
        let r = class_run_len(s.skip(1)) as int;
        lemma_class_run_len_bound(s.skip(1));
        lemma_class_run_prefix(s.skip(1));
        lemma_selector_classes_valid(s.skip(1 + r));
        let head = s.subrange(1, 1 + r);
        assert forall|i: int| 0 <= i < head.len() implies is_class_char(#[trigger] head[i]) by {
            assert(head[i] == s.skip(1)[i]);
        }
        let rest = selector_classes(s.skip(1 + r));
        assert(selector_classes(s) == seq![head] + rest);
        assert(is_class_name(head));
        assert forall|k: int| 0 <= k < selector_classes(s).len() implies is_class_name(
            #[trigger] selector_classes(s)[k],
        ) by {
            if k > 0 {
                assert(selector_classes(s)[k] == rest[k - 1]);
            } else {
                assert(selector_classes(s)[k] == head);
            }
        }
    } else {
        lemma_selector_classes_valid(s.skip(1));
        assert(selector_classes(s) == selector_classes(s.skip(1)));
    }
}

proof fn lemma_class_run_prefix(s: Seq<char>)
    ensures
        forall|i: int| 0 <= i < class_run_len(s) ==> is_class_char(#[trigger] s[i]),
    decreases s.len(),
{
    lemma_class_run_len_bound(s);
    if s.len() > 0 && is_class_char(s[0]) {
        lemma_class_run_prefix(s.skip(1));
        assert forall|i: int| 0 <= i < class_run_len(s) implies is_class_char(#[trigger] s[i]) by {
            if i > 0 {
                assert(s[i] == s.skip(1)[i - 1]);
            }
        }
    }
}

proof fn lemma_add_unique(classes: Seq<Seq<char>>, names: Seq<Seq<char>>)
    requires
        classes.no_duplicates(),
        forall|k: int| 0 <= k < classes.len() ==> is_class_name(#[trigger] classes[k]),
        forall|k: int| 0 <= k < names.len() ==> is_class_name(#[trigger] names[k]),
    ensures
        add_unique(classes, names).no_duplicates(),
        forall|k: int|
            0 <= k < add_unique(classes, names).len() ==> is_class_name(
                #[trigger] add_unique(classes, names)[k],
            ),
    decreases names.len(),
{
    if names.len() > 0 {
        let next = if classes.contains(names[0]) {
            classes
        } else {
            classes.push(names[0])
        };
        assert(is_class_name(names[0]));
        assert forall|k: int| 0 <= k < names.skip(1).len() implies is_class_name(
            #[trigger] names.skip(1)[k],
        ) by {
            assert(names.skip(1)[k] == names[k + 1]);
        }
        assert forall|k: int| 0 <= k < next.len() implies is_class_name(#[trigger] next[k]) by {
            if k < classes.len() {
                assert(next[k] == classes[k]);
            }
        }
        lemma_add_unique(next, names.skip(1));
    }
}

proof fn lemma_scan_classes(
    s: Seq<char>,
    current: Seq<char>,
    stack: Seq<bool>,
    classes: Seq<Seq<char>>,
)
    requires
        classes.no_duplicates(),
        forall|k: int| 0 <= k < classes.len() ==> is_class_name(#[trigger] classes[k]),
    ensures
        scan_classes(s, current, stack, classes).no_duplicates(),
        forall|k: int|
            0 <= k < scan_classes(s, current, stack, classes).len() ==> is_class_name(
                #[trigger] scan_classes(s, current, stack, classes)[k],
            ),
    decreases s.len(),
{
    if s.len() > 0 {
        let c = s[0];
        let rest = s.skip(1);
        if c == '"' || c == '\'' {
            lemma_quote_tail_shorter(rest, c, false);
            lemma_scan_classes(quote_tail(rest, c, false), current, stack, classes);
        } else if c == '{' {
            let at = starts_at_rule(current);
            if !at {
                lemma_selector_classes_valid(current);
                lemma_add_unique(classes, selector_classes(current));
            }
            lemma_scan_classes(
                rest,
                Seq::empty(),
                stack.push(at),
                if at {
                    classes
                } else {
                    add_unique(classes, selector_classes(current))
                },
            );
        } else if c == '}' {
            lemma_scan_classes(
                rest,
                Seq::empty(),
                if stack.len() > 0 {
                    stack.drop_last()
                } else {
                    stack
                },
                classes,
            );
        } else if c == ';' && stack.len() == 0 {
            lemma_scan_classes(rest, Seq::empty(), stack, classes);
        } else {
            lemma_scan_classes(
                rest,
                if in_selector_context(stack) {
                    current.push(c)
                } else {
                    current
                },
                stack,
                classes,
            );
        }
    }
}

/// Law: the classes collected from any stylesheet are distinct, and each is a
/// non-empty run of ASCII letters, digits, `-` and `_`.
pub proof fn law_stylesheet_classes_distinct_and_well_formed(css: Seq<char>)
    ensures
        stylesheet_classes(css).no_duplicates(),
        forall|k: int|
            0 <= k < stylesheet_classes(css).len() ==> is_class_name(
                #[trigger] stylesheet_classes(css)[k],
            ),
{
    lemma_scan_classes(strip_comments_spec(css), Seq::empty(), Seq::empty(), Seq::empty());
}

/// Whether `s` holds the opening `/*` of a block comment somewhere.
pub open spec fn has_comment_open(s: Seq<char>) -> bool {
    exists|i: int| 0 <= i < s.len() - 1 && s[i] == '/' && #[trigger] s[i + 1] == '*'
}

/// Law: stripping comments leaves CSS that holds no `/*` unchanged.
pub proof fn law_strip_comments_identity_without_comments(s: Seq<char>)
    requires
        !has_comment_open(s),
    ensures
        strip_comments_spec(s) == s,
    decreases s.len(),
{
    if s.len() > 0 {
        if s.len() >= 2 && s[0] == '/' && s[1] == '*' {
            let i: int = 0;
            assert(s[i] == '/' && s[i + 1] == '*');
            assert(false);
        }
        assert forall|i: int| !(0 <= i < s.skip(1).len() - 1 && s.skip(1)[i] == '/' && #[trigger] s.skip(1)[i + 1] == '*') by {
            if 0 <= i < s.skip(1).len() - 1 {
                assert(s.skip(1)[i] == s[i + 1]);
                assert(s.skip(1)[i + 1] == s[i + 2]);
            }
        }
        if is_quote(s[0]) {
            let k: int = 1 + quoted_len(s.skip(1), s[0], false) as int;
            lemma_quoted_len_bound(s.skip(1), s[0], false);
            assert forall|i: int| !(0 <= i < s.skip(k).len() - 1 && s.skip(k)[i] == '/' && #[trigger] s.skip(k)[i + 1] == '*') by {
                if 0 <= i < s.skip(k).len() - 1 {
                    assert(s.skip(k)[i] == s[i + k]);
                    assert(s.skip(k)[i + 1] == s[i + k + 1]);
                }
            }
            law_strip_comments_identity_without_comments(s.skip(k));
            assert(s.take(k) + s.skip(k) =~= s);
        } else {
            law_strip_comments_identity_without_comments(s.skip(1));
            assert(seq![s[0]] + s.skip(1) =~= s);
        }
    }
}

/// Law: a generated identifier is non-empty for a non-empty class name, holds only
/// ASCII letters, digits and `_`, and never starts with a digit.
pub proof fn law_class_ident_is_identifier(name: Seq<char>)
    ensures
        name.len() > 0 ==> class_ident(name).len() > 0,
        forall|i: int|
            0 <= i < class_ident(name).len() ==> (is_alnum(#[trigger] class_ident(name)[i])
                || class_ident(name)[i] == '_'),
        class_ident(name).len() > 0 ==> !is_digit(class_ident(name)[0]),
{
}

/// Law: a class name in a selector is the whole run of ASCII letters, digits,
/// `-` and `_` after its dot: a selector made of `.`, such a run `name`, and a
/// rest that does not go on with one of those characters names `name` first,
/// then the classes of the rest.
pub proof fn law_class_name_is_whole_run(name: Seq<char>, rest: Seq<char>)
    requires
        name.len() > 0,
        forall|i: int|
            0 <= i < name.len() ==> ({
                let c = #[trigger] name[i];
                ('a' <= c && c <= 'z') || ('A' <= c && c <= 'Z') || ('0' <= c && c <= '9') || c == '-' || c
                    == '_'
            }),
        rest.len() > 0 ==> !(('a' <= rest[0] && rest[0] <= 'z') || ('A' <= rest[0] && rest[0] <= 'Z') || (
        '0' <= rest[0] && rest[0] <= '9') || rest[0] == '-' || rest[0] == '_'),
    ensures
        selector_classes(seq!['.'] + name + rest) == seq![name] + selector_classes(rest),
{
    let s = seq!['.'] + name + rest;
    let t = name + rest;
    assert(s.skip(1) =~= t);
    assert forall|j: int| 0 <= j < name.len() implies is_class_char(#[trigger] t[j]) by {
        assert(t[j] == name[j]);
    }
    if rest.len() > 0 {
        assert(t[name.len() as int] == rest[0]);
    }
    lemma_class_run_len_exact(t, name.len() as int);
    assert(s[0] == '.');
    assert(s.subrange(1, 1 + name.len() as int) =~= name);
    assert(s.skip(1 + name.len() as int) =~= rest);
}

} // verus!
