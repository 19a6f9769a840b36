//! The one "declare, then call" emission seam every runtime and libc builtin
//! goes through: the callee is declared once, and its arguments are typed by
//! the parameter list (`"i8*, i64"`), one operand per parameter in order.

use crate::builder::{emitted, instruction, location_of, located, register, Codegen, Emission};
use crate::llty::{join, joined, texts};
use crate::text::{owned, trim, trimmed};
use vstd::prelude::*;
use vstd::string::StringExecFns;

verus! {

/// The pieces of `s` between commas, in order: one piece when `s` holds no
/// comma, an empty piece on each side of a leading or trailing comma.
pub open spec fn comma_pieces(s: Seq<char>) -> Seq<Seq<char>>
    decreases s.len(),
{
    if s.len() == 0 {
        seq![Seq::empty()]
    } else {
        let prev = comma_pieces(s.drop_last());
        if s.last() == ',' {
            prev.push(Seq::empty())
        } else {
            prev.update(prev.len() - 1, prev.last().push(s.last()))
        }
    }
}

/// The trimmed pieces, the empty ones dropped.
pub open spec fn kept(pieces: Seq<Seq<char>>) -> Seq<Seq<char>>
    decreases pieces.len(),
{
    if pieces.len() == 0 {
        Seq::empty()
    } else if trimmed(pieces.last()).len() > 0 {
        kept(pieces.drop_last()).push(trimmed(pieces.last()))
    } else {
        kept(pieces.drop_last())
    }
}

/// The parameter types a parameter list spells: its comma-separated pieces,
/// trimmed, the empty ones dropped.
pub open spec fn param_types(params: Seq<char>) -> Seq<Seq<char>> {
    kept(comma_pieces(params))
}

/// Each parameter type followed by its operand, pairing them in order while
/// both lists last.
pub open spec fn typed_args(types: Seq<Seq<char>>, args: Seq<Seq<char>>) -> Seq<Seq<char>> {
    let n = if types.len() <= args.len() {
        types.len()
    } else {
        args.len()
    };
    Seq::new(n, |i: int| types[i] + " "@ + args[i])
}

/// The operand texts of `args`.
pub open spec fn arg_texts(args: Seq<&str>) -> Seq<Seq<char>> {
    args.map_values(|a: &str| a@)
}

/// The typed argument list of a call.
pub open spec fn arg_list(params: Seq<char>, args: Seq<Seq<char>>) -> Seq<char> {
    joined(typed_args(param_types(params), args), ", "@)
}

/// The declaration of a callee.
pub open spec fn declaration(ret: Seq<char>, cname: Seq<char>, params: Seq<char>) -> Seq<char> {
    "declare "@ + ret + " @"@ + cname + "("@ + params + ")"@
}

/// The call of a callee.
pub open spec fn call_text(ret: Seq<char>, cname: Seq<char>, params: Seq<char>, args: Seq<Seq<char>>) -> Seq<
    char,
> {
    "call "@ + ret + " @"@ + cname + "("@ + arg_list(params, args) + ")"@
}

proof fn lemma_pieces_nonempty(s: Seq<char>)
    ensures
        comma_pieces(s).len() >= 1,
    decreases s.len(),
{
    if s.len() > 0 {
        lemma_pieces_nonempty(s.drop_last());
    }
}

/// The parameter types `params` spells.
fn split_params(params: &str) -> (r: Vec<String>)
    ensures
        texts(r@) == param_types(params@),
{
    let n = vstd::string::StrSliceExecFns::unicode_len(params);
    let mut done: Vec<String> = Vec::new();
    let mut cur = String::new();
    let mut i: usize = 0;
    proof {
        assert(params@.subrange(0, 0) =~= Seq::<char>::empty());
    }
    while i < n
        invariant
            n == params@.len(),
            i <= n,
            comma_pieces(params@.subrange(0, i as int)).len() >= 1,
            comma_pieces(params@.subrange(0, i as int)).last() == cur@,
            texts(done@) == kept(comma_pieces(params@.subrange(0, i as int)).drop_last()),
        decreases n - i,
    {
        let c = vstd::string::StrSliceExecFns::get_char(params, i);
        let ghost before = comma_pieces(params@.subrange(0, i as int));
        proof {
            assert(params@.subrange(0, i + 1).drop_last() =~= params@.subrange(0, i as int));
            assert(params@.subrange(0, i + 1).last() == c);
            lemma_pieces_nonempty(params@.subrange(0, i + 1));
        }
        if c == ',' {
            let t = trim(cur.as_str());
            proof {
                assert(before.drop_last().push(before.last()) =~= before);
                assert(comma_pieces(params@.subrange(0, i + 1)).drop_last() =~= before);
            }
            if vstd::string::StrSliceExecFns::unicode_len(t.as_str()) > 0 {
                let ghost d0 = done@;
                let ghost tv = t@;
                done.push(t);
                assert(texts(done@) =~= texts(d0).push(tv));
            }
            cur = String::new();
        } else {
            cur.push(c);
            proof {
                assert(comma_pieces(params@.subrange(0, i + 1)).drop_last() =~= before.drop_last());
            }
        }
        i = i + 1;
    }
    let ghost all = comma_pieces(params@.subrange(0, i as int));
    assert(params@.subrange(0, i as int) =~= params@);
    assert(all.drop_last().push(all.last()) =~= all);
    let t = trim(cur.as_str());
    if vstd::string::StrSliceExecFns::unicode_len(t.as_str()) > 0 {
        let ghost d0 = done@;
        let ghost tv = t@;
        done.push(t);
        assert(texts(done@) =~= texts(d0).push(tv));
    }
    done
}

/// Declare `cname` once and render the typed argument list shared by
/// [`Codegen::call`] and [`Codegen::call_void`].
fn declare_and_args(cg: &mut Codegen, ret: &str, cname: &str, params: &str, args: &[&str]) -> (r: String)
    requires
        old(cg).wf(),
    ensures
        final(cg).wf(),
        r@ == arg_list(params@, arg_texts(args@)),
        final(cg).state().externs.to_set() == old(cg).state().externs.to_set().insert(
            declaration(ret@, cname@, params@),
        ),
        final(cg).state() == (Emission { externs: final(cg).state().externs, ..old(cg).state() }),
        final(cg).debug() == old(cg).debug(),
        final(cg).coverage() == old(cg).coverage(),
{
    let mut decl = owned("declare ");
    decl.append(ret);
    decl.append(" @");
    decl.append(cname);
    decl.append("(");
    decl.append(params);
    decl.append(")");
    cg.add_extern(decl.as_str());
    let types = split_params(params);
    let ghost want = typed_args(param_types(params@), arg_texts(args@));
    let mut parts: Vec<String> = Vec::new();
    let mut i: usize = 0;
    while i < types.len() && i < args.len()
        invariant
            texts(types@) == param_types(params@),
            i <= types@.len(),
            i <= args@.len(),
            want == typed_args(param_types(params@), arg_texts(args@)),
            texts(parts@) == want.subrange(0, i as int),
        decreases types@.len() - i,
    {
        let mut part = types[i].clone();
        part.append(" ");
        part.append(args[i]);
        let ghost p0 = parts@;
        let ghost pv = part@;
        parts.push(part);
        proof {
            assert(want[i as int] == texts(types@)[i as int] + " "@ + arg_texts(args@)[i as int]);
            assert(texts(parts@) =~= texts(p0).push(pv));
            assert(want.subrange(0, i + 1) =~= want.subrange(0, i as int).push(want[i as int]));
        }
        i = i + 1;
    }
    assert(want.subrange(0, i as int) =~= want);
    join(parts.as_slice(), ", ")
}

/// `after` is `before` with `cname` declared and `r = call ret @cname(args)`
/// emitted, `r` being the next fresh register.
pub open spec fn called(
    before: Codegen,
    after: Codegen,
    r: Seq<char>,
    ret: Seq<char>,
    cname: Seq<char>,
    params: Seq<char>,
    args: Seq<Seq<char>>,
) -> bool {
    &&& r == register(before.state().regs as nat)
    &&& after.state().externs.to_set() == before.state().externs.to_set().insert(declaration(ret, cname, params))
    &&& emitted(before, after, seq![r + " = "@ + call_text(ret, cname, params, args)], 1)
}

/// `after` is `before` with `cname` declared and `call void @cname(args)`
/// emitted.
pub open spec fn called_void(
    before: Codegen,
    after: Codegen,
    cname: Seq<char>,
    params: Seq<char>,
    args: Seq<Seq<char>>,
) -> bool {
    &&& after.state().externs.to_set() == before.state().externs.to_set().insert(
        declaration("void"@, cname, params),
    )
    &&& emitted(before, after, seq![call_text("void"@, cname, params, args)], 0)
}

impl Codegen {
    /// Declare `cname` and emit `r = call ret @cname(args)`, answering `r`.
    pub fn call(&mut self, ret: &str, cname: &str, params: &str, args: &[&str]) -> (r: String)
        requires
            old(self).wf(),
            old(self).state().regs < usize::MAX,
            old(self).debug_fits(1),
        ensures
            final(self).wf(),
            r@ == register(old(self).state().regs as nat),
            final(self).state().externs.to_set() == old(self).state().externs.to_set().insert(
                declaration(ret@, cname@, params@),
            ),
            final(self).state() == (Emission {
                externs: final(self).state().externs,
                regs: (old(self).state().regs + 1) as usize,
                lines: old(self).state().lines.push(
                    instruction(
                        r@ + " = "@ + call_text(ret@, cname@, params@, arg_texts(args@)),
                        location_of(old(self).debug()),
                    ),
                ),
                ..old(self).state()
            }),
            located(old(self).debug(), final(self).debug()),
            final(self).coverage() == old(self).coverage(),
            emitted(*old(self), *final(self), seq![r@ + " = "@ + call_text(ret@, cname@, params@, arg_texts(args@))], 1),
    {
        let typed = declare_and_args(self, ret, cname, params, args);
        let mut rhs = owned("call ");
        rhs.append(ret);
        rhs.append(" @");
        rhs.append(cname);
        rhs.append("(");
        rhs.append(typed.as_str());
        rhs.append(")");
        self.emit_reg(rhs.as_str())
    }

    /// Declare `cname` and emit a `void` call of it.
    pub fn call_void(&mut self, cname: &str, params: &str, args: &[&str])
        requires
            old(self).wf(),
            old(self).debug_fits(1),
        ensures
            final(self).wf(),
            final(self).state().externs.to_set() == old(self).state().externs.to_set().insert(
                declaration("void"@, cname@, params@),
            ),
            final(self).state() == (Emission {
                externs: final(self).state().externs,
                lines: old(self).state().lines.push(
                    instruction(call_text("void"@, cname@, params@, arg_texts(args@)), location_of(old(self).debug())),
                ),
                ..old(self).state()
            }),
            located(old(self).debug(), final(self).debug()),
            final(self).coverage() == old(self).coverage(),
            emitted(*old(self), *final(self), seq![call_text("void"@, cname@, params@, arg_texts(args@))], 0),
    {
        let typed = declare_and_args(self, "void", cname, params, args);
        let mut text = owned("call void @");
        text.append(cname);
        text.append("(");
        text.append(typed.as_str());
        text.append(")");
        assert(text@ =~= call_text("void"@, cname@, params@, arg_texts(args@))) by {
            reveal_strlit("call void @");
            reveal_strlit("call ");
            reveal_strlit("void");
            reveal_strlit(" @");
        }
        self.emit(text.as_str());
    }
}

} // verus!
