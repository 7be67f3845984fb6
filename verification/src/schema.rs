//! The schema of a request frame: the frame type's own document, with its `op`
//! pinned to the operation's word.

use crate::command::member;
use crate::json::{
    all_json, list, member_in, members_of, text_member, Json, JsonView, Member, MemberView,
    ObjectWriter,
};
use crate::text::same;
use vstd::prelude::*;
use vstd::string::*;

verus! {

/// The schema of a frame's `op`: one word, and no other.
pub open spec fn op_schema(word: Seq<char>) -> JsonView {
    JsonView::Object(
        seq![
            text_member("type"@, "string"@),
            text_member("const"@, word),
            text_member("description"@, "The operation this frame asks for."@),
        ],
    )
}

/// Where the member called `name` stands.
pub open spec fn place_of(members: Seq<MemberView>, name: Seq<char>) -> Option<int>
    decreases members.len(),
{
    if members.len() == 0 {
        None
    } else if members.last().name == name {
        Some(members.len() - 1)
    } else {
        place_of(members.drop_last(), name)
    }
}

/// The members with the one called `name` set to `value`: in its place, where there
/// is one, or behind the others.
pub open spec fn with_member(
    members: Seq<MemberView>,
    name: Seq<char>,
    value: JsonView,
) -> Seq<MemberView> {
    match place_of(members, name) {
        Some(at) => members.update(at, member(name, value)),
        None => members.push(member(name, value)),
    }
}

/// The members with each of `more` set in turn.
pub open spec fn extended(members: Seq<MemberView>, more: Seq<MemberView>) -> Seq<MemberView>
    decreases more.len(),
{
    if more.len() == 0 {
        members
    } else {
        with_member(extended(members, more.drop_last()), more.last().name, more.last().value)
    }
}

/// The properties of a frame: its `op` first, then those it has.
pub open spec fn pinned_properties(members: Seq<MemberView>, word: Seq<char>) -> Seq<MemberView> {
    let op = seq![member("op"@, op_schema(word))];
    match member_in(members, "properties"@) {
        Some(JsonView::Object(existing)) => extended(op, existing),
        _ => op,
    }
}

/// What a frame requires: its `op` first, then what it requires anyway.
pub open spec fn pinned_required(members: Seq<MemberView>) -> Seq<JsonView> {
    let op = seq![JsonView::Text("op"@)];
    match member_in(members, "required"@) {
        Some(JsonView::List(existing)) => op + existing,
        _ => op,
    }
}

/// A frame's schema with its `op` the first, required member, fixed to `word`.
pub open spec fn pinned(members: Seq<MemberView>, word: Seq<char>) -> Seq<MemberView> {
    with_member(
        with_member(
            members,
            "properties"@,
            JsonView::Object(pinned_properties(members, word)),
        ),
        "required"@,
        JsonView::List(pinned_required(members)),
    )
}

proof fn lemma_place(members: Seq<MemberView>, name: Seq<char>)
    ensures
        match place_of(members, name) {
            Some(at) => {
                &&& 0 <= at < members.len()
                &&& members[at].name == name
                &&& member_in(members, name) == Some(members[at].value)
            },
            None => member_in(members, name) is None,
        },
    decreases members.len(),
{
    if members.len() > 0 && members.last().name != name {
        lemma_place(members.drop_last(), name);
    }
}

/// Setting a member leaves where any name stands, and what stands elsewhere.
proof fn lemma_update_keeps_places(members: Seq<MemberView>, at: int, value: JsonView, name: Seq<char>)
    requires
        0 <= at < members.len(),
    ensures
        place_of(members.update(at, member(members[at].name, value)), name) == place_of(
            members,
            name,
        ),
    decreases members.len(),
{
    let updated = members.update(at, member(members[at].name, value));
    assert(updated.last().name == members.last().name);
    if members.last().name != name {
        if at == members.len() - 1 {
            assert(updated.drop_last() =~= members.drop_last());
        } else {
            assert(updated.drop_last() =~= members.drop_last().update(
                at,
                member(members.drop_last()[at].name, value),
            ));
            lemma_update_keeps_places(members.drop_last(), at, value, name);
        }
    }
}

/// Setting one member leaves what another is.
proof fn lemma_other_member(
    members: Seq<MemberView>,
    name: Seq<char>,
    value: JsonView,
    other: Seq<char>,
)
    requires
        name != other,
    ensures
        member_in(with_member(members, name, value), other) == member_in(members, other),
{
    let set = with_member(members, name, value);
    lemma_place(members, name);
    lemma_place(members, other);
    lemma_place(set, other);
    match place_of(members, name) {
        Some(at) => {
            lemma_update_keeps_places(members, at, value, other);
        },
        None => {
            assert(set.drop_last() =~= members);
        },
    }
}

/// Setting members leaves the name of the first.
proof fn lemma_first_stays_first(members: Seq<MemberView>, more: Seq<MemberView>)
    requires
        members.len() > 0,
    ensures
        extended(members, more).len() > 0,
        extended(members, more)[0].name == members[0].name,
    decreases more.len(),
{
    if more.len() > 0 {
        lemma_first_stays_first(members, more.drop_last());
        let earlier = extended(members, more.drop_last());
        lemma_place(earlier, more.last().name);
    }
}

/// **A pinned frame names its operation first**: `op` is the first of its properties
/// and the first of what it requires.
pub proof fn lemma_op_comes_first(members: Seq<MemberView>, word: Seq<char>)
    ensures
        pinned_properties(members, word).len() > 0,
        pinned_properties(members, word)[0].name == "op"@,
        pinned_required(members).len() > 0,
        pinned_required(members)[0] == JsonView::Text("op"@),
{
    let op = seq![member("op"@, op_schema(word))];
    if let Some(JsonView::Object(existing)) = member_in(members, "properties"@) {
        lemma_first_stays_first(op, existing);
    }
}

fn find(members: &Vec<Member>, name: &str) -> (r: Option<usize>)
    ensures
        match r {
            Some(at) => place_of(members_of(members@), name@) == Some(at as int) && at
                < members@.len(),
            None => place_of(members_of(members@), name@) is None,
        },
{
    let ghost all = members_of(members@);
    let mut i: usize = members.len();
    proof {
        assert(all.take(i as int) =~= all);
    }
    while i > 0
        invariant
            i <= members@.len(),
            all == members_of(members@),
            place_of(all, name@) == place_of(all.take(i as int), name@),
        decreases i,
    {
        proof {
            assert(all.take(i as int).last() == all[i - 1]);
            assert(all.take(i as int).drop_last() =~= all.take(i - 1));
        }
        if same(members[i - 1].name.as_str(), name) {
            return Some(i - 1);
        }
        i = i - 1;
    }
    None
}

fn set_member(members: &mut Vec<Member>, name: &str, value: Json)
    ensures
        members_of(final(members)@) == with_member(members_of(old(members)@), name@, value@),
{
    let ghost before = members_of(members@);
    match find(members, name) {
        Some(at) => {
            members.set(at, Member { name: name.to_owned(), value });
            proof {
                assert(members_of(members@) =~= before.update(at as int, member(name@, value@)));
            }
        },
        None => {
            members.push(Member { name: name.to_owned(), value });
            proof {
                assert(members_of(members@) =~= before.push(member(name@, value@)));
            }
        },
    }
}

/// Take the value of a member out, leaving its place.
fn take(members: &mut Vec<Member>, name: &str) -> (r: Option<Json>)
    ensures
        match r {
            Some(value) => member_in(members_of(old(members)@), name@) == Some(value@)
                && members_of(final(members)@) == with_member(
                members_of(old(members)@),
                name@,
                JsonView::Null,
            ),
            None => member_in(members_of(old(members)@), name@) is None && final(members)@
                == old(members)@,
        },
{
    let ghost before = members_of(members@);
    proof {
        lemma_place(before, name@);
    }
    match find(members, name) {
        Some(at) => {
            let taken = members.remove(at);
            members.insert(at, Member { name: name.to_owned(), value: Json::Null });
            proof {
                assert(members_of(members@) =~= before.update(
                    at as int,
                    member(name@, JsonView::Null),
                ));
            }
            Some(taken.value)
        },
        None => None,
    }
}

/// Setting a member twice is setting it to the second value.
proof fn lemma_set_twice(members: Seq<MemberView>, name: Seq<char>, a: JsonView, b: JsonView)
    ensures
        with_member(with_member(members, name, a), name, b) == with_member(members, name, b),
{
    lemma_place(members, name);
    match place_of(members, name) {
        Some(at) => {
            lemma_update_keeps_places(members, at, a, name);
            assert(with_member(with_member(members, name, a), name, b) =~= with_member(
                members,
                name,
                b,
            ));
        },
        None => {
            let set = members.push(member(name, a));
            assert(set.last().name == name);
            assert(with_member(set, name, b) =~= members.push(member(name, b)));
        },
    }
}

fn op_document(word: &str) -> (json: Json)
    ensures
        json@ == op_schema(word@),
{
    let mut object = ObjectWriter::new();
    object.put_str("type", "string");
    object.put_str("const", word);
    object.put_str("description", "The operation this frame asks for.");
    proof {
        assert(object.so_far() =~= op_schema(word@)->Object_0);
    }
    object.done()
}

fn object_of(members: Vec<Member>) -> (json: Json)
    ensures
        json@ == JsonView::Object(members_of(members@)),
{
    let json = Json::Object(members);
    proof {
        assert(json@->Object_0 =~= members_of(members@));
    }
    json
}

fn pin_properties(existing: Option<Json>, word: &str) -> (properties: Vec<Member>)
    ensures
        members_of(properties@) == match existing {
            Some(json) => match json@ {
                JsonView::Object(existing) => extended(
                    seq![member("op"@, op_schema(word@))],
                    existing,
                ),
                _ => seq![member("op"@, op_schema(word@))],
            },
            None => seq![member("op"@, op_schema(word@))],
        },
{
    let mut properties: Vec<Member> = Vec::new();
    properties.push(Member { name: "op".to_owned(), value: op_document(word) });
    let ghost op = seq![member("op"@, op_schema(word@))];
    proof {
        assert(members_of(properties@) =~= op);
    }
    if let Some(Json::Object(existing)) = existing {
        let ghost source = Json::Object(existing);
        let ghost all = members_of(existing@);
        proof {
            assert(source@->Object_0 =~= all);
        }
        let mut rest = existing;
        let ghost mut done: int = 0;
        proof {
            assert(rest@.skip(0) =~= rest@);
            assert(all.take(0) =~= Seq::empty());
        }
        let ghost whole = rest@;
        while rest.len() > 0
            invariant
                0 <= done <= whole.len(),
                all == members_of(whole),
                rest@ == whole.skip(done),
                members_of(properties@) == extended(op, all.take(done)),
            decreases rest@.len(),
        {
            proof {
                assert(all.take(done + 1).last() == all[done]);
                assert(all.take(done + 1).drop_last() =~= all.take(done));
            }
            let one = rest.remove(0);
            proof {
                assert(one == whole[done]);
                assert(rest@ =~= whole.skip(done + 1));
                done = done + 1;
            }
            set_member(&mut properties, one.name.as_str(), one.value);
        }
        proof {
            assert(all.take(done) =~= all);
        }
    }
    properties
}

fn pin_required(existing: Option<Json>) -> (required: Json)
    ensures
        required@ == JsonView::List(
            match existing {
                Some(json) => match json@ {
                    JsonView::List(existing) => seq![JsonView::Text("op"@)] + existing,
                    _ => seq![JsonView::Text("op"@)],
                },
                None => seq![JsonView::Text("op"@)],
            },
        ),
{
    let mut required: Vec<Json> = Vec::new();
    required.push(Json::string("op"));
    let ghost op = seq![JsonView::Text("op"@)];
    proof {
        assert(all_json(required@) =~= op);
    }
    if let Some(Json::List(existing)) = existing {
        let ghost source = Json::List(existing);
        proof {
            assert(source@->List_0 =~= all_json(existing@));
        }
        let mut more = existing;
        let ghost had = required@;
        required.append(&mut more);
        proof {
            assert(all_json(required@) =~= op + all_json(existing@));
        }
    }
    list(required)
}

/// Declare `op` as a frame's first, required member, fixed to `word`.
pub fn pin_op(object: Vec<Member>, word: &str) -> (r: Vec<Member>)
    ensures
        members_of(r@) == pinned(members_of(object@), word@),
{
    let mut members = object;
    let ghost given = members_of(members@);
    proof {
        reveal_strlit("properties");
        reveal_strlit("required");
        assert("properties"@.len() == 10 && "required"@.len() == 8);
    }
    let existing = take(&mut members, "properties");
    let properties = pin_properties(existing, word);
    let ghost taken = members_of(members@);
    proof {
        lemma_set_twice(
            given,
            "properties"@,
            JsonView::Null,
            JsonView::Object(members_of(properties@)),
        );
    }
    let document = object_of(properties);
    let ghost pinned_document = document@;
    set_member(&mut members, "properties", document);
    let ghost first = members_of(members@);
    proof {
        lemma_other_member(given, "properties"@, pinned_document, "required"@);
    }
    let existing = take(&mut members, "required");
    let required = pin_required(existing);
    proof {
        lemma_set_twice(first, "required"@, JsonView::Null, required@);
    }
    set_member(&mut members, "required", required);
    members
}

/// A shape with its `op` pinned; what is no object is left as it is.
pub open spec fn pinned_shape(shape: JsonView, word: Seq<char>) -> JsonView {
    match shape {
        JsonView::Object(members) => JsonView::Object(pinned(members, word)),
        _ => shape,
    }
}

/// A frame's schema pinned throughout: the document itself and, for a frame that is
/// discriminated further, each of its shapes.
pub open spec fn pinned_throughout(schema: JsonView, word: Seq<char>) -> JsonView {
    match schema {
        JsonView::Object(members) => {
            let root = pinned(members, word);
            match member_in(root, "oneOf"@) {
                Some(JsonView::List(shapes)) => JsonView::Object(
                    with_member(
                        root,
                        "oneOf"@,
                        JsonView::List(
                            Seq::new(shapes.len(), |i: int| pinned_shape(shapes[i], word)),
                        ),
                    ),
                ),
                _ => JsonView::Object(root),
            }
        },
        _ => schema,
    }
}

fn pin_shape(shape: Json, word: &str) -> (r: Json)
    ensures
        r@ == pinned_shape(shape@, word@),
{
    match shape {
        Json::Object(members) => {
            proof {
                assert(shape@->Object_0 =~= members_of(members@));
            }
            object_of(pin_op(members, word))
        },
        other => other,
    }
}

/// Pin a frame's schema to the word of its operation, each of its shapes included.
pub fn pin_frame(schema: Json, word: &str) -> (r: Json)
    ensures
        r@ == pinned_throughout(schema@, word@),
{
    let members = match schema {
        Json::Object(members) => {
            proof {
                assert(schema@->Object_0 =~= members_of(members@));
            }
            members
        },
        other => return other,
    };
    let mut root = pin_op(members, word);
    let ghost before = members_of(root@);
    proof {
        lemma_place(before, "oneOf"@);
    }
    match find(&root, "oneOf") {
        Some(at) => {
            let is_list = match root[at].value {
                Json::List(_) => true,
                _ => false,
            };
            if is_list {
                if let Some(Json::List(shapes)) = take(&mut root, "oneOf") {
                    let ghost source = Json::List(shapes);
                    let ghost views = all_json(shapes@);
                    let ghost whole = shapes@;
                    proof {
                        assert(source@->List_0 =~= views);
                    }
                    let mut rest = shapes;
                    let mut pinned_shapes: Vec<Json> = Vec::new();
                    proof {
                        assert(whole.skip(0) =~= whole);
                    }
                    while rest.len() > 0
                        invariant
                            pinned_shapes@.len() <= whole.len(),
                            rest@ == whole.skip(pinned_shapes@.len() as int),
                            forall|k: int|
                                0 <= k < pinned_shapes@.len() ==> (
                                #[trigger] pinned_shapes@[k])@ == pinned_shape(whole[k]@, word@),
                        decreases rest@.len(),
                    {
                        let ghost k = pinned_shapes@.len() as int;
                        let shape = rest.remove(0);
                        proof {
                            assert(shape == whole[k]);
                            assert(rest@ =~= whole.skip(k + 1));
                        }
                        pinned_shapes.push(pin_shape(shape, word));
                    }
                    proof {
                        assert(all_json(pinned_shapes@) =~= Seq::new(
                            views.len(),
                            |i: int| pinned_shape(views[i], word@),
                        ));
                        lemma_set_twice(
                            before,
                            "oneOf"@,
                            JsonView::Null,
                            JsonView::List(all_json(pinned_shapes@)),
                        );
                    }
                    set_member(&mut root, "oneOf", list(pinned_shapes));
                }
            }
        },
        None => {},
    }
    object_of(root)
}

/// **A pinned frame requires its operation and keeps the rest**: its `op` can be the one
/// word alone, comes first among what it requires, with everything it required behind it;
/// and whatever else it declares stays.
pub proof fn lemma_a_pinned_frame_keeps_the_rest(
    object: Vec<Member>,
    word: &str,
    name: Seq<char>,
    existing: Seq<MemberView>,
    needed: Seq<JsonView>,
    r: Vec<Member>,
)
    requires
        call_ensures(pin_op, (object, word), r),
    ensures
        name != "properties"@ && name != "required"@ ==> member_in(members_of(r@), name)
            == member_in(members_of(object@), name),
        member_in(members_of(object@), "required"@) == Some(JsonView::List(needed))
            ==> member_in(members_of(r@), "required"@) == Some(
            JsonView::List(seq![JsonView::Text("op"@)] + needed),
        ),
        member_in(members_of(object@), "required"@) is None ==> member_in(
            members_of(r@),
            "required"@,
        ) == Some(JsonView::List(seq![JsonView::Text("op"@)])),
        member_in(members_of(object@), "properties"@) == Some(JsonView::Object(existing))
            && member_in(existing, "op"@) is None ==> {
            let properties = member_in(members_of(r@), "properties"@);
            &&& properties is Some
            &&& properties->0 is Object
            &&& properties->0.get("op"@) is Some
            &&& properties->0.get("op"@)->0.get("const"@) == Some(JsonView::Text(word@))
            &&& properties->0->Object_0[0].name == "op"@
            &&& name != "op"@ ==> properties->0.get(name) == member_in(existing, name)
        },
{
    let given = members_of(object@);
    let all = members_of(r@);
    reveal_strlit("properties");
    reveal_strlit("required");
    assert("properties"@.len() == 10 && "required"@.len() == 8);
    let properties = JsonView::Object(pinned_properties(given, word@));
    let required = JsonView::List(pinned_required(given));
    let first = with_member(given, "properties"@, properties);
    lemma_set_member(given, "properties"@, properties);
    lemma_set_member(first, "required"@, required);
    lemma_other_member(first, "required"@, required, "properties"@);
    if name != "properties"@ && name != "required"@ {
        lemma_other_member(given, "properties"@, properties, name);
        lemma_other_member(first, "required"@, required, name);
    }
    if member_in(given, "properties"@) == Some(JsonView::Object(existing)) && member_in(
        existing,
        "op"@,
    ) is None {
        let op = seq![member("op"@, op_schema(word@))];
        lemma_first_stays_first(op, existing);
        lemma_extended_has(op, existing, "op"@);
        lemma_extended_has(op, existing, name);
        assert(op.last().name == "op"@);
        assert(op.drop_last() =~= Seq::empty());
        assert(member_in(op, "op"@) == Some(op_schema(word@)));
        assert(member_in(Seq::<MemberView>::empty(), name) is None);
        assert(name != "op"@ ==> member_in(op, name) is None);
        lemma_op_is_fixed(word@);
    }
}

/// What a frame's `op` can be.
proof fn lemma_op_is_fixed(word: Seq<char>)
    ensures
        op_schema(word).get("const"@) == Some(JsonView::Text(word)),
{
    reveal_strlit("type");
    reveal_strlit("const");
    reveal_strlit("description");
    assert("type"@.len() == 4 && "const"@.len() == 5 && "description"@.len() == 11);
    crate::json::lemma_the_only_member_of_its_name(op_schema(word)->Object_0, 1);
}

/// A member that was set is what it was set to.
proof fn lemma_set_member(members: Seq<MemberView>, name: Seq<char>, value: JsonView)
    ensures
        member_in(with_member(members, name, value), name) == Some(value),
{
    let set = with_member(members, name, value);
    lemma_place(members, name);
    lemma_place(set, name);
    match place_of(members, name) {
        Some(at) => {
            lemma_update_keeps_places(members, at, value, name);
        },
        None => {
            assert(set.last().name == name);
        },
    }
}

/// A member is what it is set to last, or what it was.
proof fn lemma_extended_has(members: Seq<MemberView>, more: Seq<MemberView>, name: Seq<char>)
    ensures
        member_in(extended(members, more), name) == match member_in(more, name) {
            Some(value) => Some(value),
            None => member_in(members, name),
        },
    decreases more.len(),
{
    if more.len() > 0 {
        lemma_extended_has(members, more.drop_last(), name);
        let earlier = extended(members, more.drop_last());
        let (last, value) = (more.last().name, more.last().value);
        if last == name {
            lemma_set_member(earlier, name, value);
        } else {
            lemma_other_member(earlier, last, value, name);
        }
    }
}

} // verus!
