//! The builtin registry: `len`, `first`, `last`, `rest`, `push` and `puts`.

use vstd::prelude::*;
use crate::environment::Environment;
use crate::object::{Object, objects_view, lemma_objects_view_index, lemma_objects_view_ext, copy_objects};
use crate::semantics::{count_value, arity_message, builtin_of, builtin_result, shown_all, unary_builtin_result};
use crate::text::append_nat;
use crate::value::{Builtin, Value, kind_name};

verus! {

/// The builtin that `name` stands for, as an object.
pub fn get_builtin_fn(name: &String) -> (r: Option<Object>)
    ensures
        match builtin_of(name@) {
            Some(b) => r == Some(Object::Builtin(b)),
            None => r.is_none(),
        },
{
    if name.eq(&"len".to_owned()) {
        Some(Object::Builtin(Builtin::Len))
    } else if name.eq(&"first".to_owned()) {
        Some(Object::Builtin(Builtin::First))
    } else if name.eq(&"last".to_owned()) {
        Some(Object::Builtin(Builtin::Last))
    } else if name.eq(&"rest".to_owned()) {
        Some(Object::Builtin(Builtin::Rest))
    } else if name.eq(&"push".to_owned()) {
        Some(Object::Builtin(Builtin::Push))
    } else if name.eq(&"puts".to_owned()) {
        Some(Object::Builtin(Builtin::Puts))
    } else {
        None
    }
}

/// An error object carrying `message`.
pub fn new_error(message: String) -> (r: Object)
    ensures
        r@ == Value::Error(message@),
{
    Object::Error(message)
}

/// The name of an object's type, as diagnostics print it.
pub fn kind_text(o: &Object) -> (r: String)
    ensures
        r@ == kind_name(o@),
{
    match o {
        Object::Integer(_) => "INTEGER".to_owned(),
        Object::Boolean(_) => "BOOLEAN".to_owned(),
        Object::String(_) => "STRING".to_owned(),
        Object::Null => "NULL".to_owned(),
        Object::ReturnValue(_) => "RETURN_VALUE".to_owned(),
        Object::Error(_) => "ERROR".to_owned(),
        Object::Function(..) => "FUNCTION".to_owned(),
        Object::Builtin(_) => "BUILTIN".to_owned(),
        Object::Array(_) => "ARRAY".to_owned(),
        Object::Hash(_) => "HASH".to_owned(),
    }
}

/// `prefix` followed by the type name of `o`.
pub fn message_with_kind(prefix: &str, o: &Object) -> (r: String)
    ensures
        r@ == prefix@ + kind_name(o@),
{
    let mut s = prefix.to_owned();
    let k = kind_text(o);
    s.append(k.as_str());
    s
}

/// The message for a call with `found` arguments where `expected` are taken.
pub fn arity_text(expected: usize, found: usize) -> (r: String)
    ensures
        r@ == arity_message(expected as nat, found as nat),
{
    let mut s = "wrong number of arguments: expected ".to_owned();
    append_nat(&mut s, expected as u64);
    s.append(", found ");
    append_nat(&mut s, found as u64);
    s
}

fn arity_error(expected: usize, found: usize) -> (r: Object)
    ensures
        r@ == Value::Error(arity_message(expected as nat, found as nat)),
{
    new_error(arity_text(expected, found))
}

fn count_to_int(n: usize) -> (r: i32)
    ensures
        r == count_value(n as nat),
{
    let m: u64 = (n as u64) % 4294967296;
    if m > 2147483647 {
        (m as i64 - 4294967296) as i32
    } else {
        m as i32
    }
}

fn unary_builtin(b: Builtin, a: &Object) -> (r: Object)
    requires
        b != Builtin::Push && b != Builtin::Puts,
    ensures
        r@ == unary_builtin_result(b, a@),
{
    proof {
        if let Object::Array(vs) = a {
            lemma_objects_view_index(vs@);
        }
    }
    match b {
        Builtin::Len => match a {
            Object::String(s) => {
                let n = s.as_str().len();
                assert(n as nat == crate::semantics::byte_len(s@));
                Object::Integer(count_to_int(n))
            },
            Object::Array(vs) => Object::Integer(count_to_int(vs.len())),
            _ => new_error(message_with_kind("argument to 'len' not supported, found ", a)),
        },
        Builtin::First => match a {
            Object::Array(vs) => if vs.len() > 0 { vs[0].copy() } else { Object::Null },
            _ => new_error(message_with_kind("argument to 'first' must be ARRAY, found ", a)),
        },
        Builtin::Last => match a {
            Object::Array(vs) => if vs.len() > 0 { vs[vs.len() - 1].copy() } else { Object::Null },
            _ => new_error(message_with_kind("argument to 'last' must be ARRAY, found ", a)),
        },
        _ => match a {
            Object::Array(vs) => if vs.len() > 0 {
                let mut rest: Vec<Object> = Vec::new();
                let mut i: usize = 1;
                while i < vs.len()
                    invariant
                        1 <= i <= vs.len(),
                        rest.len() == i - 1,
                        forall|j: int| 0 <= j < i - 1 ==> rest@[j]@ == vs@[j + 1]@,
                    decreases vs.len() - i,
                {
                    rest.push(vs[i].copy());
                    i = i + 1;
                }
                proof {
                    lemma_objects_view_ext(rest@, objects_view(vs@).subrange(1, vs.len() as int));
                }
                Object::Array(rest)
            } else {
                Object::Null
            },
            _ => new_error(message_with_kind("argument to 'rest' must be ARRAY, found ", a)),
        },
    }
}

/// Applies a builtin to evaluated arguments. `puts` records the printed form
/// of each argument in `env`; every other builtin leaves `env` as it was.
pub fn apply_builtin(b: Builtin, args: &Vec<Object>, env: &mut Environment) -> (r: Object)
    ensures
        (r@, final(env)@) == builtin_result(b, objects_view(args@), old(env)@),
{
    proof {
        lemma_objects_view_index(args@);
    }
    match b {
        Builtin::Puts => {
            let mut i: usize = 0;
            while i < args.len()
                invariant
                    i <= args.len(),
                    env@.frames == old(env)@.frames,
                    env@.output == old(env)@.output + shown_all(objects_view(args@).subrange(0, i as int)),
                decreases args.len() - i,
            {
                proof {
                    lemma_objects_view_index(args@);
                }
                let line = args[i].inspect();
                let ghost shown = line@;
                proof {
                    let vs = objects_view(args@);
                    assert(vs[i as int] == args@[i as int]@);
                    assert(shown_all(vs.subrange(0, i + 1)) =~= shown_all(vs.subrange(0, i as int)).push(shown));
                }
                env.emit(line);
                i = i + 1;
                proof {
                    assert(env@.output =~= old(env)@.output + shown_all(objects_view(args@).subrange(0, i as int)));
                }
            }
            proof {
                assert(objects_view(args@).subrange(0, i as int) =~= objects_view(args@));
            }
            Object::Null
        },
        Builtin::Push => {
            if args.len() != 2 {
                return arity_error(2, args.len());
            }
            match &args[0] {
                Object::Array(vs) => {
                    let mut out = copy_objects(vs);
                    let ghost before = out@;
                    out.push(args[1].copy());
                    proof {
                        lemma_objects_view_index(vs@);
                        lemma_objects_view_index(before);
                        let want = objects_view(vs@).push(args@[1]@);
                        assert forall|j: int| 0 <= j < out.len() implies out@[j]@ == want[j] by {
                            if j < vs.len() {
                                assert(out@[j] == before[j]);
                            }
                        }
                        lemma_objects_view_ext(out@, want);
                    }
                    Object::Array(out)
                },
                _ => new_error(message_with_kind("argument to 'push' must be ARRAY, found ", &args[0])),
            }
        },
        _ => {
            if args.len() != 1 {
                return arity_error(1, args.len());
            }
            unary_builtin(b, &args[0])
        },
    }
}

} // verus!
