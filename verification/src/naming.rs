//! Name derivation: the view function a variant maps to, the snake-case
//! state field a variant owns, module paths for view components, and the
//! routing-mode switch. Identifiers are treated as ASCII, as Rust
//! identifiers in route enums are.

use vstd::prelude::*;
use vstd::string::StringExecFns;
use crate::model::RoutingMode;
use crate::strutil::{chars_to_string, push_char, str_to_chars};

verus! {

pub open spec fn is_ascii_upper(c: char) -> bool {
    65 <= (c as u32) <= 90
}

/// The lower-case letter of an ASCII upper-case letter; anything else is
/// returned unchanged.
pub open spec fn lower_char(c: char) -> char {
    if c == 'A' {
        'a'
    } else if c == 'B' {
        'b'
    } else if c == 'C' {
        'c'
    } else if c == 'D' {
        'd'
    } else if c == 'E' {
        'e'
    } else if c == 'F' {
        'f'
    } else if c == 'G' {
        'g'
    } else if c == 'H' {
        'h'
    } else if c == 'I' {
        'i'
    } else if c == 'J' {
        'j'
    } else if c == 'K' {
        'k'
    } else if c == 'L' {
        'l'
    } else if c == 'M' {
        'm'
    } else if c == 'N' {
        'n'
    } else if c == 'O' {
        'o'
    } else if c == 'P' {
        'p'
    } else if c == 'Q' {
        'q'
    } else if c == 'R' {
        'r'
    } else if c == 'S' {
        's'
    } else if c == 'T' {
        't'
    } else if c == 'U' {
        'u'
    } else if c == 'V' {
        'v'
    } else if c == 'W' {
        'w'
    } else if c == 'X' {
        'x'
    } else if c == 'Y' {
        'y'
    } else if c == 'Z' {
        'z'
    } else {
        c
    }
}

/// Lower one character.
fn lower_char_exec(c: char) -> (r: char)
    ensures
        r == lower_char(c),
{
    match c {
        'A' => 'a',
        'B' => 'b',
        'C' => 'c',
        'D' => 'd',
        'E' => 'e',
        'F' => 'f',
        'G' => 'g',
        'H' => 'h',
        'I' => 'i',
        'J' => 'j',
        'K' => 'k',
        'L' => 'l',
        'M' => 'm',
        'N' => 'n',
        'O' => 'o',
        'P' => 'p',
        'Q' => 'q',
        'R' => 'r',
        'S' => 's',
        'T' => 't',
        'U' => 'u',
        'V' => 'v',
        'W' => 'w',
        'X' => 'x',
        'Y' => 'y',
        'Z' => 'z',
        _ => c,
    }
}

/// The snake-case rendering of an identifier from position `i` on,
/// `prev_upper` telling whether the previous character was upper-case:
/// an upper-case letter past the start of a lower-case run gets an
/// underscore before it, and every upper-case letter is lowered.
pub open spec fn snake_from(s: Seq<char>, i: int, prev_upper: bool) -> Seq<char>
    decreases s.len() - i,
{
    if i < 0 || i >= s.len() {
        Seq::<char>::empty()
    } else if is_ascii_upper(s[i]) {
        (if i > 0 && !prev_upper {
            seq!['_']
        } else {
            Seq::<char>::empty()
        }) + seq![lower_char(s[i])] + snake_from(s, i + 1, true)
    } else {
        seq![s[i]] + snake_from(s, i + 1, false)
    }
}

/// The snake-case rendering of a whole identifier.
pub open spec fn spec_to_snake_case(s: Seq<char>) -> Seq<char> {
    snake_from(s, 0, false)
}

/// Convert a PascalCase identifier to snake_case: an underscore before
/// each upper-case letter that follows a non-upper one, and all letters
/// lowered.
pub fn to_snake_case(s: &str) -> (r: String)
    ensures
        r@ == spec_to_snake_case(s@),
{
    let cs = str_to_chars(s);
    let mut out: Vec<char> = Vec::new();
    let mut prev_upper = false;
    let mut i: usize = 0;
    while i < cs.len()
        invariant
            i <= cs@.len(),
            cs@ == s@,
            out@ + snake_from(s@, i as int, prev_upper) == spec_to_snake_case(s@),
        decreases cs@.len() - i,
    {
        let c = cs[i];
        let cu = c as u32;
        if 65 <= cu && cu <= 90 {
            if i > 0 && !prev_upper {
                out.push('_');
            }
            out.push(lower_char_exec(c));
            prev_upper = true;
        } else {
            out.push(c);
            prev_upper = false;
        }
        i = i + 1;
        proof {
            assert(out@ + snake_from(s@, i as int, prev_upper) =~= spec_to_snake_case(s@));
        }
    }
    proof {
        assert(out@ =~= spec_to_snake_case(s@));
    }
    chars_to_string(&out)
}

/// The view suffix used when none is configured.
pub fn default_view_suffix() -> (r: String)
    ensures
        r@ == "View"@,
{
    let mut s = String::new();
    s.append("View");
    s
}

/// The name of the view a variant maps to: prefix, variant name, suffix.
pub open spec fn spec_view_name(prefix: Seq<char>, name: Seq<char>, suffix: Seq<char>) -> Seq<
    char,
> {
    prefix + name + suffix
}

/// Derive the view-function name of one variant from the configured
/// prefix and suffix.
pub fn build_variant_view_name(prefix: &str, name: &str, suffix: &str) -> (r: String)
    ensures
        r@ == spec_view_name(prefix@, name@, suffix@),
{
    let mut s = String::new();
    s.append(prefix);
    s.append(name);
    s.append(suffix);
    s
}

/// `/` turned into `::`, every other character kept, from position `i` on.
pub open spec fn mod_sep_from(s: Seq<char>, i: int) -> Seq<char>
    decreases s.len() - i,
{
    if i < 0 || i >= s.len() {
        Seq::<char>::empty()
    } else {
        (if s[i] == '/' {
            seq![':', ':']
        } else {
            seq![s[i]]
        }) + mod_sep_from(s, i + 1)
    }
}

/// The module path of a route view component:
/// `crate::<prefix>::<snake(variant)>::<view|layout>::<View|Layout>`,
/// with `/` in the prefix standing for `::`.
pub open spec fn spec_module_view_path(
    module_prefix: Seq<char>,
    variant: Seq<char>,
    is_parent: bool,
) -> Seq<char> {
    "crate::"@ + mod_sep_from(module_prefix, 0) + "::"@ + spec_to_snake_case(variant) + (if is_parent {
        "::layout::Layout"@
    } else {
        "::view::View"@
    })
}

/// Build the module path of a route view component: nesting variants map
/// to their layout component, others to their view component.
pub fn build_module_view_path(variant: &str, is_parent: bool, module_prefix: &str) -> (r: String)
    ensures
        r@ == spec_module_view_path(module_prefix@, variant@, is_parent),
{
    let mut s = String::new();
    s.append("crate::");
    let pc = str_to_chars(module_prefix);
    let mut i: usize = 0;
    let ghost base = s@;
    while i < pc.len()
        invariant
            i <= pc@.len(),
            pc@ == module_prefix@,
            s@ + mod_sep_from(module_prefix@, i as int) == base + mod_sep_from(module_prefix@, 0),
        decreases pc@.len() - i,
    {
        let c = pc[i];
        if c == '/' {
            push_char(&mut s, ':');
            push_char(&mut s, ':');
        } else {
            push_char(&mut s, c);
        }
        i = i + 1;
        proof {
            assert(s@ + mod_sep_from(module_prefix@, i as int) =~= base + mod_sep_from(
                module_prefix@,
                0,
            ));
        }
    }
    proof {
        assert(mod_sep_from(module_prefix@, pc@.len() as int) =~= Seq::<char>::empty());
    }
    s.append("::");
    let snake = to_snake_case(variant);
    s.append(snake.as_str());
    if is_parent {
        s.append("::layout::Layout");
    } else {
        s.append("::view::View");
    }
    s
}

/// The routing mode named by a string, compared without regard to ASCII
/// case.
pub open spec fn spec_mode_of(s: Seq<char>) -> Option<RoutingMode> {
    let lowered = s.map_values(|c: char| lower_char(c));
    if lowered == "auto"@ {
        Some(RoutingMode::Auto)
    } else if lowered == "flat"@ {
        Some(RoutingMode::Flat)
    } else if lowered == "nested"@ {
        Some(RoutingMode::Nested)
    } else {
        None
    }
}

impl RoutingMode {
    /// Read a routing mode out of its name, any ASCII casing accepted;
    /// any other string is rejected with a message naming it.
    pub fn from_str(s: &str) -> (r: Result<RoutingMode, String>)
        ensures
            match r {
                Ok(m) => spec_mode_of(s@) == Some(m),
                Err(e) => spec_mode_of(s@) is None && e@ == "Invalid routing mode '"@ + s@
                    + "'. Expected 'auto', 'nested', or 'flat'"@,
            },
    {
        let cs = str_to_chars(s);
        let mut low: Vec<char> = Vec::new();
        let mut i: usize = 0;
        while i < cs.len()
            invariant
                i <= cs@.len(),
                cs@ == s@,
                low@ == s@.map_values(|c: char| lower_char(c)).take(i as int),
            decreases cs@.len() - i,
        {
            low.push(lower_char_exec(cs[i]));
            i = i + 1;
            proof {
                assert(low@ =~= s@.map_values(|c: char| lower_char(c)).take(i as int));
            }
        }
        proof {
            assert(low@ =~= s@.map_values(|c: char| lower_char(c)));
        }
        let auto = str_to_chars("auto");
        if crate::strutil::chars_eq(&low, &auto) {
            return Ok(RoutingMode::Auto);
        }
        let flat = str_to_chars("flat");
        if crate::strutil::chars_eq(&low, &flat) {
            return Ok(RoutingMode::Flat);
        }
        let nested = str_to_chars("nested");
        if crate::strutil::chars_eq(&low, &nested) {
            return Ok(RoutingMode::Nested);
        }
        let mut e = String::new();
        e.append("Invalid routing mode '");
        e.append(s);
        e.append("'. Expected 'auto', 'nested', or 'flat'");
        Err(e)
    }
}

} // verus!
