//! A JSON value tree, its mathematical model, and a pretty-printing
//! renderer with an exact character-level specification.
use vstd::prelude::*;

verus! {

/// The mathematical model of a JSON value: booleans, strings, arrays and
/// objects, which is all a schema document needs. An object is a sequence
/// of key/value members in emission order.
pub enum JsonView {
    Bool(bool),
    Str(Seq<char>),
    Arr(Seq<JsonView>),
    Obj(Seq<(Seq<char>, JsonView)>),
}

/// A JSON value. Its model is `JsonView`, reached through `@`.
pub enum Json {
    Bool(bool),
    Str(String),
    Arr(Vec<Json>),
    Obj(Vec<(String, Json)>),
}

/// The model of a JSON value.
pub open spec fn json_view(j: Json) -> JsonView
    decreases j, 2int, 0int,
{
    match j {
        Json::Bool(b) => JsonView::Bool(b),
        Json::Str(s) => JsonView::Str(s@),
        Json::Arr(items) => JsonView::Arr(json_views(items@)),
        Json::Obj(members) => JsonView::Obj(json_member_views(members@)),
    }
}

/// The models of a sequence of JSON values, in order.
pub open spec fn json_views(items: Seq<Json>) -> Seq<JsonView>
    decreases items, 1int, items.len(),
{
    if items.len() == 0 {
        Seq::empty()
    } else {
        seq![json_view(items[0])] + json_views(items.skip(1))
    }
}

/// The models of a sequence of object members, in order.
pub open spec fn json_member_views(members: Seq<(String, Json)>) -> Seq<(Seq<char>, JsonView)>
    decreases members, 1int, members.len(),
{
    if members.len() == 0 {
        Seq::empty()
    } else {
        seq![(members[0].0@, json_view(members[0].1))] + json_member_views(members.skip(1))
    }
}

impl View for Json {
    type V = JsonView;

    open spec fn view(&self) -> JsonView {
        json_view(*self)
    }
}

/// `json_views` element by element: it keeps length and order.
pub proof fn lemma_json_views_index(items: Seq<Json>)
    ensures
        json_views(items).len() == items.len(),
        forall|i: int| 0 <= i < items.len() ==> json_views(items)[i] == json_view(items[i]),
    decreases items.len(),
{
    if items.len() > 0 {
        lemma_json_views_index(items.skip(1));
        assert forall|i: int| 0 <= i < items.len() implies json_views(items)[i] == json_view(
            items[i],
        ) by {
            if i > 0 {
                assert(items.skip(1)[i - 1] == items[i]);
            }
        }
    }
}

/// `json_member_views` element by element: it keeps length, keys and order.
pub proof fn lemma_json_member_views_index(members: Seq<(String, Json)>)
    ensures
        json_member_views(members).len() == members.len(),
        forall|i: int|
            0 <= i < members.len() ==> json_member_views(members)[i] == (
            members[i].0@,
            json_view(members[i].1),
            ),
    decreases members.len(),
{
    if members.len() > 0 {
        lemma_json_member_views_index(members.skip(1));
        assert forall|i: int| 0 <= i < members.len() implies json_member_views(members)[i] == (
        members[i].0@,
        json_view(members[i].1),
        ) by {
            if i > 0 {
                assert(members.skip(1)[i - 1] == members[i]);
            }
        }
    }
}

impl JsonView {
    /// Whether this value is an object with a member named `key`.
    pub open spec fn has_key(self, key: Seq<char>) -> bool {
        self matches JsonView::Obj(ms) && exists|i: int| 0 <= i < ms.len() && ms[i].0 == key
    }

    /// The value of a member named `key` of this object; determined
    /// when the object's keys are distinct, as in every tree the schema
    /// builder emits.
    pub open spec fn get(self, key: Seq<char>) -> JsonView
        recommends
            self.has_key(key),
    {
        let ms = self->Obj_0;
        ms[choose|i: int| 0 <= i < ms.len() && #[trigger] ms[i].0 == key].1
    }
}

/// `n` space characters.
pub open spec fn spaces(n: nat) -> Seq<char> {
    Seq::new(n, |i: int| ' ')
}

/// The lower-case hexadecimal digit of `n`, for `0 <= n < 16`.
pub open spec fn hex_digit(n: int) -> char {
    if n == 0 { '0' }
    else if n == 1 { '1' }
    else if n == 2 { '2' }
    else if n == 3 { '3' }
    else if n == 4 { '4' }
    else if n == 5 { '5' }
    else if n == 6 { '6' }
    else if n == 7 { '7' }
    else if n == 8 { '8' }
    else if n == 9 { '9' }
    else if n == 10 { 'a' }
    else if n == 11 { 'b' }
    else if n == 12 { 'c' }
    else if n == 13 { 'd' }
    else if n == 14 { 'e' }
    else { 'f' }
}

/// The JSON escape of one character inside a string literal: the named
/// short escapes where JSON has them, `\u00XX` for the other control
/// characters, the character itself otherwise.
pub open spec fn escape_char(c: char) -> Seq<char> {
    if c == '"' { seq!['\\', '"'] }
    else if c == '\\' { seq!['\\', '\\'] }
    else if c == '\n' { seq!['\\', 'n'] }
    else if c == '\r' { seq!['\\', 'r'] }
    else if c == '\t' { seq!['\\', 't'] }
    else if c == '\u{8}' { seq!['\\', 'b'] }
    else if c == '\u{c}' { seq!['\\', 'f'] }
    else if (c as u32) < 0x20 {
        seq!['\\', 'u', '0', '0', hex_digit(c as u32 as int / 16), hex_digit(c as u32 as int % 16)]
    } else {
        seq![c]
    }
}

/// The JSON escape of a whole string body (without the quotes).
pub open spec fn escape_chars(s: Seq<char>) -> Seq<char>
    decreases s.len(),
{
    if s.len() == 0 {
        Seq::empty()
    } else {
        escape_char(s[0]) + escape_chars(s.skip(1))
    }
}

/// The pretty-printed text of a JSON value placed at indentation depth
/// `ind`: two-space indentation, one member or item per line, `": "`
/// after each key, and empty objects and arrays printed closed.
pub open spec fn render(j: JsonView, ind: nat) -> Seq<char>
    decreases j, 2int, 0int,
{
    match j {
        JsonView::Bool(b) => if b {
            seq!['t', 'r', 'u', 'e']
        } else {
            seq!['f', 'a', 'l', 's', 'e']
        },
        JsonView::Str(s) => seq!['"'] + escape_chars(s) + seq!['"'],
        JsonView::Arr(items) => if items.len() == 0 {
            seq!['[', ']']
        } else {
            seq!['[', '\n'] + render_items(items, ind + 2) + seq!['\n'] + spaces(ind) + seq![']']
        },
        JsonView::Obj(members) => if members.len() == 0 {
            seq!['{', '}']
        } else {
            seq!['{', '\n'] + render_members(members, ind + 2) + seq!['\n'] + spaces(ind)
                + seq!['}']
        },
    }
}

/// The lines of an array body at indentation `ind`, separated by `",\n"`.
pub open spec fn render_items(items: Seq<JsonView>, ind: nat) -> Seq<char>
    decreases items, 1int, items.len(),
{
    if items.len() == 0 {
        Seq::empty()
    } else {
        spaces(ind) + render(items[0], ind) + (if items.len() > 1 {
            seq![',', '\n'] + render_items(items.skip(1), ind)
        } else {
            Seq::empty()
        })
    }
}

/// The lines of an object body at indentation `ind`, separated by `",\n"`.
pub open spec fn render_members(members: Seq<(Seq<char>, JsonView)>, ind: nat) -> Seq<char>
    decreases members, 1int, members.len(),
{
    if members.len() == 0 {
        Seq::empty()
    } else {
        spaces(ind) + seq!['"'] + escape_chars(members[0].0) + seq!['"', ':', ' '] + render(
            members[0].1,
            ind,
        ) + (if members.len() > 1 {
            seq![',', '\n'] + render_members(members.skip(1), ind)
        } else {
            Seq::empty()
        })
    }
}

/// The hexadecimal digit of `n` as a one-character string.
fn hex_digit_str(n: u32) -> (r: &'static str)
    requires
        n < 16,
    ensures
        r@ == seq![hex_digit(n as int)],
{
    proof {
        reveal_strlit("0");
        reveal_strlit("1");
        reveal_strlit("2");
        reveal_strlit("3");
        reveal_strlit("4");
        reveal_strlit("5");
        reveal_strlit("6");
        reveal_strlit("7");
        reveal_strlit("8");
        reveal_strlit("9");
        reveal_strlit("a");
        reveal_strlit("b");
        reveal_strlit("c");
        reveal_strlit("d");
        reveal_strlit("e");
        reveal_strlit("f");
    }
    let r: &'static str = if n == 0 { "0" }
    else if n == 1 { "1" }
    else if n == 2 { "2" }
    else if n == 3 { "3" }
    else if n == 4 { "4" }
    else if n == 5 { "5" }
    else if n == 6 { "6" }
    else if n == 7 { "7" }
    else if n == 8 { "8" }
    else if n == 9 { "9" }
    else if n == 10 { "a" }
    else if n == 11 { "b" }
    else if n == 12 { "c" }
    else if n == 13 { "d" }
    else if n == 14 { "e" }
    else { "f" };
    proof {
        assert(r@ =~= seq![hex_digit(n as int)]);
    }
    r
}

/// Appends the JSON escape of `s` to `out`.
fn append_escaped(out: &mut String, s: &str)
    ensures
        final(out)@ == old(out)@ + escape_chars(s@),
{
    let n = s.unicode_len();
    let mut i: usize = 0;
    proof {
        assert(s@.skip(0) =~= s@);
        assert(out@ + escape_chars(s@) =~= old(out)@ + escape_chars(s@));
    }
    while i < n
        invariant
            i <= n,
            n == s@.len(),
            out@ + escape_chars(s@.skip(i as int)) == old(out)@ + escape_chars(s@),
        decreases n - i,
    {
        let ghost rest = s@.skip(i as int);
        let ghost out0 = out@;
        proof {
            assert(rest[0] == s@[i as int]);
            assert(rest.skip(1) =~= s@.skip(i + 1));
        }
        let c = s.get_char(i);
        if c == '"' {
            out.append("\\\"");
            proof {
                reveal_strlit("\\\"");
                assert(out@ =~= out0 + escape_char(rest[0]));
            }
        } else if c == '\\' {
            out.append("\\\\");
            proof {
                reveal_strlit("\\\\");
                assert(out@ =~= out0 + escape_char(rest[0]));
            }
        } else if c == '\n' {
            out.append("\\n");
            proof {
                reveal_strlit("\\n");
                assert(out@ =~= out0 + escape_char(rest[0]));
            }
        } else if c == '\r' {
            out.append("\\r");
            proof {
                reveal_strlit("\\r");
                assert(out@ =~= out0 + escape_char(rest[0]));
            }
        } else if c == '\t' {
            out.append("\\t");
            proof {
                reveal_strlit("\\t");
                assert(out@ =~= out0 + escape_char(rest[0]));
            }
        } else if c == '\u{8}' {
            out.append("\\b");
            proof {
                reveal_strlit("\\b");
                assert(out@ =~= out0 + escape_char(rest[0]));
            }
        } else if c == '\u{c}' {
            out.append("\\f");
            proof {
                reveal_strlit("\\f");
                assert(out@ =~= out0 + escape_char(rest[0]));
            }
        } else if (c as u32) < 0x20 {
            out.append("\\u00");
            let hi = hex_digit_str((c as u32) / 16);
            out.append(hi);
            let lo = hex_digit_str((c as u32) % 16);
            out.append(lo);
            proof {
                reveal_strlit("\\u00");
                assert(out@ =~= out0 + escape_char(rest[0]));
            }
        } else {
            let piece = s.substring_char(i, i + 1);
            out.append(piece);
            proof {
                assert(piece@ =~= seq![rest[0]]);
                assert(out@ =~= out0 + escape_char(rest[0]));
            }
        }
        proof {
            assert(escape_chars(rest) == escape_char(rest[0]) + escape_chars(rest.skip(1)));
            assert(out@ + escape_chars(s@.skip(i + 1)) =~= out0 + escape_chars(rest));
        }
        i += 1;
    }
    proof {
        assert(s@.skip(n as int) =~= Seq::<char>::empty());
        assert(out@ + escape_chars(s@.skip(n as int)) =~= out@);
    }
}

/// Appends the pretty-printed text of `j` at the indentation held in
/// `ind` (a string of spaces) to `out`.
#[verifier::loop_isolation(false)]
#[verifier::rlimit(60)]
fn render_to(out: &mut String, j: &Json, ind: &String)
    requires
        ind@ == spaces(ind@.len()),
    ensures
        final(out)@ == old(out)@ + render(json_view(*j), ind@.len()),
    decreases *j,
{
    let ghost n: nat = ind@.len();
    match j {
        Json::Bool(b) => {
            if *b {
                out.append("true");
                proof {
                    reveal_strlit("true");
                    assert(out@ =~= old(out)@ + render(json_view(*j), n));
                }
            } else {
                out.append("false");
                proof {
                    reveal_strlit("false");
                    assert(out@ =~= old(out)@ + render(json_view(*j), n));
                }
            }
        },
        Json::Str(s) => {
            out.append("\"");
            append_escaped(out, s.as_str());
            out.append("\"");
            proof {
                reveal_strlit("\"");
                assert(out@ =~= old(out)@ + render(json_view(*j), n));
            }
        },
        Json::Arr(items) => {
            let ghost vs = json_views(items@);
            proof {
                lemma_json_views_index(items@);
            }
            let len = items.len();
            if len == 0 {
                out.append("[]");
                proof {
                    reveal_strlit("[]");
                    assert(out@ =~= old(out)@ + render(json_view(*j), n));
                }
            } else {
                out.append("[\n");
                let mut child_ind = ind.clone();
                child_ind.append("  ");
                proof {
                    reveal_strlit("[\n");
                    reveal_strlit("  ");
                    assert(child_ind@ =~= spaces(n + 2));
                }
                let ghost start = out@;
                let mut i: usize = 0;
                proof {
                    assert(vs.skip(0) =~= vs);
                }
                while i < len
                    invariant
                        i <= len,
                        len == items@.len(),
                        vs == json_views(items@),
                        vs.len() == len,
                        forall|k: int| 0 <= k < len ==> vs[k] == json_view(items@[k]),
                        child_ind@ == spaces(n + 2),
                        child_ind@.len() == n + 2,
                        out@ + render_items(vs.skip(i as int), n + 2) == start + render_items(
                            vs,
                            n + 2,
                        ),
                    decreases len - i,
                {
                    let ghost out0 = out@;
                    let ghost rest = vs.skip(i as int);
                    out.append(child_ind.as_str());
                    proof {
                        assert(decreases_to!(*j => (*j)->Arr_0));
                        assert((*j)->Arr_0 == *items);
                        assert(decreases_to!(*items => items@));
                        assert(decreases_to!(items@ => items@[i as int]));
                    }
                    render_to(out, &items[i], &child_ind);
                    if i + 1 < len {
                        out.append(",\n");
                        proof {
                            reveal_strlit(",\n");
                        }
                    }
                    proof {
                        assert(rest[0] == vs[i as int]);
                        assert(rest.skip(1) =~= vs.skip(i + 1));
                        assert(render_items(rest, n + 2) == spaces(n + 2) + render(
                            rest[0],
                            n + 2,
                        ) + (if rest.len() > 1 {
                            seq![',', '\n'] + render_items(rest.skip(1), n + 2)
                        } else {
                            Seq::empty()
                        }));
                        assert(out@ + render_items(vs.skip(i + 1), n + 2) =~= out0 + render_items(
                            rest,
                            n + 2,
                        ));
                    }
                    i += 1;
                }
                proof {
                    assert(vs.skip(len as int) =~= Seq::<JsonView>::empty());
                    assert(out@ =~= start + render_items(vs, n + 2));
                }
                out.append("\n");
                out.append(ind.as_str());
                out.append("]");
                proof {
                    reveal_strlit("\n");
                    reveal_strlit("]");
                    assert(out@ =~= old(out)@ + render(json_view(*j), n));
                }
            }
        },
        Json::Obj(members) => {
            let ghost vs = json_member_views(members@);
            proof {
                lemma_json_member_views_index(members@);
            }
            let len = members.len();
            if len == 0 {
                out.append("{}");
                proof {
                    reveal_strlit("{}");
                    assert(out@ =~= old(out)@ + render(json_view(*j), n));
                }
            } else {
                out.append("{\n");
                let mut child_ind = ind.clone();
                child_ind.append("  ");
                proof {
                    reveal_strlit("{\n");
                    reveal_strlit("  ");
                    assert(child_ind@ =~= spaces(n + 2));
                }
                let ghost start = out@;
                let mut i: usize = 0;
                proof {
                    assert(vs.skip(0) =~= vs);
                }
                while i < len
                    invariant
                        i <= len,
                        len == members@.len(),
                        vs == json_member_views(members@),
                        vs.len() == len,
                        forall|k: int|
                            0 <= k < len ==> vs[k] == (members@[k].0@, json_view(members@[k].1)),
                        child_ind@ == spaces(n + 2),
                        child_ind@.len() == n + 2,
                        out@ + render_members(vs.skip(i as int), n + 2) == start + render_members(
                            vs,
                            n + 2,
                        ),
                    decreases len - i,
                {
                    let ghost out0 = out@;
                    let ghost rest = vs.skip(i as int);
                    out.append(child_ind.as_str());
                    out.append("\"");
                    append_escaped(out, members[i].0.as_str());
                    out.append("\": ");
                    proof {
                        assert(decreases_to!(*j => (*j)->Obj_0));
                        assert((*j)->Obj_0 == *members);
                        assert(decreases_to!(*members => members@));
                        assert(decreases_to!(members@ => members@[i as int]));
                        assert(decreases_to!(members@[i as int] => members@[i as int].1));
                    }
                    render_to(out, &members[i].1, &child_ind);
                    if i + 1 < len {
                        out.append(",\n");
                        proof {
                            reveal_strlit(",\n");
                        }
                    }
                    proof {
                        reveal_strlit("\"");
                        reveal_strlit("\": ");
                        assert(rest[0] == vs[i as int]);
                        assert(rest.skip(1) =~= vs.skip(i + 1));
                        assert(render_members(rest, n + 2) == spaces(n + 2) + seq!['"']
                            + escape_chars(rest[0].0) + seq!['"', ':', ' '] + render(
                            rest[0].1,
                            n + 2,
                        ) + (if rest.len() > 1 {
                            seq![',', '\n'] + render_members(rest.skip(1), n + 2)
                        } else {
                            Seq::empty()
                        }));
                        assert(out@ + render_members(vs.skip(i + 1), n + 2) =~= out0
                            + render_members(rest, n + 2));
                    }
                    i += 1;
                }
                proof {
                    assert(vs.skip(len as int) =~= Seq::<(Seq<char>, JsonView)>::empty());
                    assert(out@ =~= start + render_members(vs, n + 2));
                }
                out.append("\n");
                out.append(ind.as_str());
                out.append("}");
                proof {
                    reveal_strlit("\n");
                    reveal_strlit("}");
                    assert(out@ =~= old(out)@ + render(json_view(*j), n));
                }
            }
        },
    }
}

/// The pretty-printed text of `j`: two-space indentation, one member or
/// item per line.
pub fn to_pretty_string(j: &Json) -> (r: String)
    ensures
        r@ == render(j@, 0),
{
    let mut out = String::new();
    let ind = String::new();
    proof {
        assert(ind@ =~= spaces(0));
    }
    render_to(&mut out, j, &ind);
    proof {
        assert(out@ =~= render(json_view(*j), 0));
    }
    out
}


} // verus!
