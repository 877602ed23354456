use vstd::prelude::*;

use crate::config::texts;
use crate::text::same_text;
use crate::upto::{encoded, UptoUnit};

verus! {

/// `parts` joined with commas between them.
pub open spec fn joined(parts: Seq<Seq<char>>) -> Seq<char>
    decreases parts.len(),
{
    if parts.len() == 0 {
        Seq::empty()
    } else if parts.len() == 1 {
        parts[0]
    } else {
        joined(parts.drop_last()) + seq![','] + parts.last()
    }
}

/// What `$FOCUS` becomes: one token, the focus paths joined with commas, when
/// a non-empty list of them is given; nothing otherwise.
pub open spec fn focus_tokens(focus: Option<Seq<Seq<char>>>) -> Seq<Seq<char>> {
    match focus {
        Some(f) => if f.len() > 0 {
            seq![joined(f)]
        } else {
            Seq::empty()
        },
        None => Seq::empty(),
    }
}

/// What one template token becomes: `$FILE` the file, `$UPTO` the encoded
/// limit or nothing, `$FOCUS` the joined focus paths or nothing, and any
/// other token itself.
pub open spec fn expansion(
    token: Seq<char>,
    file: Seq<char>,
    upto: Option<UptoUnit>,
    focus: Option<Seq<Seq<char>>>,
) -> Seq<Seq<char>> {
    if token == "$FILE"@ {
        seq![file]
    } else if token == "$UPTO"@ {
        match upto {
            Some(u) => seq![encoded(u)],
            None => Seq::empty(),
        }
    } else if token == "$FOCUS"@ {
        focus_tokens(focus)
    } else {
        seq![token]
    }
}

/// The expansions of the tokens of `template`, one after another.
pub open spec fn substituted(
    template: Seq<Seq<char>>,
    file: Seq<char>,
    upto: Option<UptoUnit>,
    focus: Option<Seq<Seq<char>>>,
) -> Seq<Seq<char>>
    decreases template.len(),
{
    if template.len() == 0 {
        Seq::empty()
    } else {
        substituted(template.drop_last(), file, upto, focus) + expansion(
            template.last(),
            file,
            upto,
            focus,
        )
    }
}

pub open spec fn focus_view(focus: Option<&[String]>) -> Option<Seq<Seq<char>>> {
    match focus {
        Some(f) => Some(texts(f@)),
        None => None,
    }
}

/// `parts` joined with commas between them.
pub fn join_commas(parts: &[String]) -> (r: String)
    ensures
        r@ == joined(texts(parts@)),
{
    let mut out = String::new();
    let mut i: usize = 0;
    while i < parts.len()
        invariant
            i <= parts.len(),
            out@ == joined(texts(parts@.subrange(0, i as int))),
        decreases parts.len() - i,
    {
        let ghost before = out@;
        let ghost prefix = texts(parts@.subrange(0, i + 1));
        assert(prefix.drop_last() =~= texts(parts@.subrange(0, i as int)));
        assert(prefix.last() == parts@[i as int]@);
        if i > 0 {
            out.append(",");
        }
        out.append(parts[i].as_str());
        proof {
            if i == 0 {
                assert(prefix.len() == 1);
                assert(out@ =~= joined(prefix));
            } else {
                reveal_strlit(",");
                assert(","@ =~= seq![',']);
                assert(out@ =~= joined(prefix));
            }
        }
        i = i + 1;
    }
    assert(parts@.subrange(0, parts.len() as int) =~= parts@);
    out
}

/// The argument vector that `args` expands to for `file`, the read limit
/// `upto` and the focus paths `focus`.
pub fn substitute_args(
    args: &[String],
    file: &str,
    upto: Option<UptoUnit>,
    focus: Option<&[String]>,
) -> (r: Vec<String>)
    ensures
        texts(r@) == substituted(texts(args@), file@, upto, focus_view(focus)),
{
    let focus_str = match focus {
        Some(f) => if f.len() > 0 {
            Some(join_commas(f))
        } else {
            None
        },
        None => None,
    };
    let upto_str = match upto {
        Some(u) => Some(u.to_string()),
        None => None,
    };
    let ghost focus_seq = focus_view(focus);
    let mut out: Vec<String> = Vec::new();
    let mut i: usize = 0;
    while i < args.len()
        invariant
            i <= args.len(),
            match focus_str {
                Some(t) => focus_tokens(focus_seq) == seq![t@],
                None => focus_tokens(focus_seq) == Seq::<Seq<char>>::empty(),
            },
            match upto {
                Some(u) => upto_str is Some && upto_str->Some_0@ == encoded(u),
                None => upto_str is None,
            },
            texts(out@) == substituted(
                texts(args@.subrange(0, i as int)),
                file@,
                upto,
                focus_seq,
            ),
        decreases args.len() - i,
    {
        let ghost before = texts(out@);
        let ghost prefix = texts(args@.subrange(0, i + 1));
        assert(prefix.drop_last() =~= texts(args@.subrange(0, i as int)));
        assert(prefix.last() == args@[i as int]@);
        let arg = &args[i];
        if same_text(arg.as_str(), "$FILE") {
            out.push(file.to_owned());
        } else if same_text(arg.as_str(), "$UPTO") {
            match &upto_str {
                Some(s) => {
                    out.push(s.clone());
                },
                None => {},
            }
        } else if same_text(arg.as_str(), "$FOCUS") {
            match &focus_str {
                Some(t) => {
                    out.push(t.clone());
                },
                None => {},
            }
        } else {
            out.push(arg.clone());
        }
        assert(texts(out@) =~= before + expansion(args@[i as int]@, file@, upto, focus_seq));
        i = i + 1;
    }
    assert(args@.subrange(0, args.len() as int) =~= args@);
    out
}

} // verus!
