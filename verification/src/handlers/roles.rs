//! The roles page: named sets of permissions, written one to a line.

use crate::reply::{failure, failure_text, Reply};
use crate::text::{
    chars_of, contains_text, decimal, decimal_text, is_blank, last_index_of,
    law_trimming_cuts_the_ends, lowercased, occurs_at, opt_text, rfind_char, split, split_chars,
    string_of, sub_chars, trim, trim_chars, trimmed, views, whitespace, Cut,
};
use vstd::prelude::*;

verus! {

/// The form that makes a role.
pub struct CreateRoleForm {
    pub name: String,
    pub description: Option<String>,
    /// One permission to a line, as `resource:flags`.
    pub permissions: Option<String>,
}

/// What a role may do with a resource.
pub struct Grant {
    pub resource: String,
    pub read: bool,
    pub write: bool,
    pub execute: bool,
    pub query: bool,
    pub observe: bool,
}

/// What a line grants: the flags on a resource.
pub struct GrantV {
    pub resource: Seq<char>,
    pub flags: Seq<char>,
}

/// Whether the grant gives what the line says.
pub open spec fn gives(grant: Grant, line: GrantV) -> bool {
    &&& grant.resource@ == line.resource
    &&& grant.read == line.flags.contains('r')
    &&& grant.write == line.flags.contains('w')
    &&& grant.execute == line.flags.contains('x')
    &&& grant.query == line.flags.contains('q')
    &&& grant.observe == line.flags.contains('o')
}

/// What a line says.
pub enum LineV {
    /// It is blank, or a comment.
    Nothing,
    /// It is no `resource:flags`.
    Shapeless,
    /// It has a flag that there is not.
    Unknown(char),
    Grants(GrantV),
}

/// A flag that there is; a dash stands for none.
pub open spec fn known_flag(c: char) -> bool {
    c == 'r' || c == 'w' || c == 'x' || c == 'q' || c == 'o' || c == '-'
}

/// The first flag that there is not.
pub open spec fn unknown_flag(flags: Seq<char>) -> Option<char>
    decreases flags.len(),
{
    if flags.len() == 0 {
        None
    } else if !known_flag(flags[0]) {
        Some(flags[0])
    } else {
        unknown_flag(flags.drop_first())
    }
}

/// What a line says. The flags stand behind its last colon.
pub open spec fn line_says(line: Seq<char>) -> LineV {
    let text = trim(line);
    if text.len() == 0 || text[0] == '#' {
        LineV::Nothing
    } else {
        let colon = last_index_of(text, ':');
        if colon < 0 {
            LineV::Shapeless
        } else {
            let resource = trim(text.take(colon));
            let flags = trim(text.skip(colon + 1));
            if resource.len() == 0 || flags.len() == 0 {
                LineV::Shapeless
            } else {
                match unknown_flag(lowercased(flags)) {
                    Some(c) => LineV::Unknown(c),
                    None => LineV::Grants(GrantV { resource, flags: lowercased(flags) }),
                }
            }
        }
    }
}

/// The complaint about a line that is no `resource:flags`.
pub open spec fn shapeless_text(line: nat) -> Seq<char> {
    "Invalid permission at line "@ + decimal(line)
        + ". Expected resource:flags (e.g. fs:/tmp:rwx)"@
}

/// The complaint about a flag.
pub open spec fn unknown_text(c: char, line: nat) -> Seq<char> {
    "Invalid permission flag '"@ + seq![c] + "' at line "@ + decimal(line)
        + ". Allowed: r w x q o"@
}

/// What the lines grant, in order, or the complaint about the first that is wrong.
pub open spec fn block_says(lines: Seq<Seq<char>>) -> Result<Seq<GrantV>, Seq<char>>
    decreases lines.len(),
{
    if lines.len() == 0 {
        Ok(Seq::empty())
    } else {
        match block_says(lines.drop_last()) {
            Err(e) => Err(e),
            Ok(grants) => match line_says(lines.last()) {
                LineV::Nothing => Ok(grants),
                LineV::Shapeless => Err(shapeless_text(lines.len())),
                LineV::Unknown(c) => Err(unknown_text(c, lines.len())),
                LineV::Grants(g) => Ok(grants.push(g)),
            },
        }
    }
}

/// Whether the grants are those of the lines.
pub open spec fn all_given(grants: Seq<Grant>, lines: Seq<GrantV>) -> bool {
    grants.len() == lines.len() && forall|k: int|
        0 <= k < grants.len() ==> gives(#[trigger] grants[k], lines[k])
}

proof fn lemma_unknown_flag(flags: Seq<char>, i: int)
    requires
        0 <= i <= flags.len(),
        forall|k: int| 0 <= k < i ==> known_flag(#[trigger] flags[k]),
    ensures
        unknown_flag(flags) == unknown_flag(flags.skip(i)),
    decreases i,
{
    if i == 0 {
        assert(flags.skip(0) =~= flags);
    } else {
        let rest = flags.drop_first();
        assert forall|k: int| 0 <= k < i - 1 implies known_flag(#[trigger] rest[k]) by {
            assert(rest[k] == flags[k + 1]);
        }
        lemma_unknown_flag(rest, i - 1);
        assert(rest.skip(i - 1) =~= flags.skip(i));
        assert(known_flag(flags[0]));
    }
}

fn find_unknown(flags: &[char]) -> (r: Option<char>)
    ensures
        r == unknown_flag(flags@),
{
    let mut i: usize = 0;
    while i < flags.len()
        invariant
            i <= flags@.len(),
            forall|k: int| 0 <= k < i ==> known_flag(#[trigger] flags@[k]),
        decreases flags.len() - i,
    {
        let c: char = flags[i];
        if !(c == 'r' || c == 'w' || c == 'x' || c == 'q' || c == 'o' || c == '-') {
            proof {
                lemma_unknown_flag(flags@, i as int);
                assert(flags@.skip(i as int)[0] == c);
            }
            return Some(c);
        }
        i += 1;
    }
    proof {
        lemma_unknown_flag(flags@, flags@.len() as int);
        assert(flags@.skip(flags@.len() as int) =~= Seq::empty());
    }
    None
}

/// What a line was read as.
pub enum Line {
    Nothing,
    Shapeless,
    Unknown(char),
    Grants(Grant),
}

/// Reads a line of permissions.
pub fn read_line(line: &[char]) -> (r: Line)
    ensures
        match r {
            Line::Nothing => line_says(line@) is Nothing,
            Line::Shapeless => line_says(line@) is Shapeless,
            Line::Unknown(c) => line_says(line@) == LineV::Unknown(c),
            Line::Grants(g) => line_says(line@) matches LineV::Grants(v) && gives(g, v),
        },
{
    let text: Vec<char> = trim_chars(line, Cut::Whitespace);
    if text.len() == 0 || text[0] == '#' {
        return Line::Nothing;
    }
    let colon: usize = match rfind_char(text.as_slice(), ':') {
        Some(i) => i,
        None => {
            return Line::Shapeless;
        },
    };
    let head: Vec<char> = sub_chars(text.as_slice(), 0, colon);
    let tail: Vec<char> = sub_chars(text.as_slice(), colon + 1, text.len());
    assert(head@ =~= text@.take(colon as int));
    assert(tail@ =~= text@.skip(colon + 1));
    let resource: Vec<char> = trim_chars(head.as_slice(), Cut::Whitespace);
    let flags: Vec<char> = trim_chars(tail.as_slice(), Cut::Whitespace);
    if resource.len() == 0 || flags.len() == 0 {
        return Line::Shapeless;
    }
    let shown: String = string_of(flags.as_slice());
    let lower: String = shown.as_str().to_lowercase();
    let set: Vec<char> = chars_of(lower.as_str());
    match find_unknown(set.as_slice()) {
        Some(c) => Line::Unknown(c),
        None => Line::Grants(
            Grant {
                resource: string_of(resource.as_slice()),
                read: crate::text::has_char(set.as_slice(), 'r'),
                write: crate::text::has_char(set.as_slice(), 'w'),
                execute: crate::text::has_char(set.as_slice(), 'x'),
                query: crate::text::has_char(set.as_slice(), 'q'),
                observe: crate::text::has_char(set.as_slice(), 'o'),
            },
        ),
    }
}

fn shapeless(line: u64) -> (r: String)
    ensures
        r@ == shapeless_text(line as nat),
{
    let n: String = decimal_text(line);
    let mut out: String = "Invalid permission at line ".to_owned();
    out.push_str(n.as_str());
    out.push_str(". Expected resource:flags (e.g. fs:/tmp:rwx)");
    out
}

fn unknown(c: char, line: u64) -> (r: String)
    ensures
        r@ == unknown_text(c, line as nat),
{
    let n: String = decimal_text(line);
    let one: [char; 1] = [c];
    let flag: String = string_of(&one);
    assert(flag@ =~= seq![c]);
    let mut out: String = "Invalid permission flag '".to_owned();
    out.push_str(flag.as_str());
    out.push_str("' at line ");
    out.push_str(n.as_str());
    out.push_str(". Allowed: r w x q o");
    out
}

proof fn lemma_first_complaint(lines: Seq<Seq<char>>, i: int)
    requires
        0 <= i <= lines.len(),
        block_says(lines.take(i)) is Err,
    ensures
        block_says(lines) == block_says(lines.take(i)),
    decreases lines.len() - i,
{
    if i < lines.len() {
        assert(lines.take(i + 1).drop_last() =~= lines.take(i));
        lemma_first_complaint(lines, i + 1);
    } else {
        assert(lines.take(i) =~= lines);
    }
}

/// Reads permissions, one to a line.
pub fn parse_permissions_block(raw: &str) -> (r: Result<Vec<Grant>, String>)
    ensures
        match r {
            Ok(grants) => block_says(split(raw@, '\n')) matches Ok(v) && all_given(grants@, v),
            Err(e) => block_says(split(raw@, '\n')) == Err::<Seq<GrantV>, Seq<char>>(e@),
        },
{
    let chars: Vec<char> = chars_of(raw);
    let lines: Vec<Vec<char>> = split_chars(chars.as_slice(), '\n');
    let ghost all = views(lines@);
    let mut grants: Vec<Grant> = Vec::new();
    let mut i: usize = 0;
    assert(all.take(0) =~= Seq::empty());
    while i < lines.len()
        invariant
            all == views(lines@),
            all == split(raw@, '\n'),
            i <= lines@.len(),
            block_says(all.take(i as int)) matches Ok(v) && all_given(grants@, v),
        decreases lines.len() - i,
    {
        assert(all.take(i + 1).drop_last() =~= all.take(i as int));
        assert(all.take(i + 1).last() == lines@[i as int]@);
        assert(all.take(i + 1).len() == i + 1);
        let ghost before = block_says(all.take(i as int))->Ok_0;
        match read_line(lines[i].as_slice()) {
            Line::Nothing => {},
            Line::Shapeless => {
                proof {
                    lemma_first_complaint(all, i + 1);
                }
                return Err(shapeless(i as u64 + 1));
            },
            Line::Unknown(c) => {
                proof {
                    lemma_first_complaint(all, i + 1);
                }
                return Err(unknown(c, i as u64 + 1));
            },
            Line::Grants(g) => {
                let ghost given = grants@;
                grants.push(g);
                let ghost v = line_says(lines@[i as int]@)->Grants_0;
                assert(block_says(all.take(i + 1)) == Ok::<Seq<GrantV>, Seq<char>>(before.push(v)));
                assert(all_given(grants@, before.push(v))) by {
                    assert forall|k: int| 0 <= k < grants@.len() implies gives(
                        #[trigger] grants@[k],
                        before.push(v)[k],
                    ) by {
                        if k < given.len() {
                            assert(grants@[k] == given[k]);
                        }
                    }
                }
            },
        }
        i += 1;
    }
    assert(all.take(i as int) =~= all);
    Ok(grants)
}

/// Adding a blank line or a comment changes nothing of what is granted.
pub proof fn law_comments_grant_nothing(lines: Seq<Seq<char>>, line: Seq<char>)
    requires
        trim(line).len() == 0 || trim(line)[0] == '#',
    ensures
        block_says(lines.push(line)) == block_says(lines),
{
    assert(lines.push(line).drop_last() =~= lines);
}

/// What a role is made with.
pub struct NewRole {
    pub name: String,
    pub description: String,
    pub grants: Vec<Grant>,
}

/// The text of a field, empty where there is none.
pub open spec fn or_empty(field: Option<Seq<char>>) -> Seq<char> {
    match field {
        Some(s) => s,
        None => ""@,
    }
}

/// Reads the form that makes a role.
pub fn create(form: &CreateRoleForm) -> (r: Result<NewRole, Reply>)
    ensures
        ({
            let lines = block_says(split(or_empty(opt_text(form.permissions)), '\n'));
            match r {
                Ok(role) => {
                    &&& trim(form.name@).len() > 0
                    &&& role.name@ == trim(form.name@)
                    &&& role.description@ == trim(or_empty(opt_text(form.description)))
                    &&& (lines matches Ok(v) && all_given(role.grants@, v))
                },
                Err(reply) => {
                    ||| trim(form.name@).len() == 0 && reply.is(400, "Role name is required"@)
                    ||| trim(form.name@).len() > 0 && (lines matches Err(e) && reply.is(400, e))
                },
            }
        }),
{
    if is_blank(form.name.as_str()) {
        return Err(Reply::new(400, "Role name is required"));
    }
    let description: &str = match &form.description {
        Some(s) => s.as_str(),
        None => "",
    };
    let raw: &str = match &form.permissions {
        Some(s) => s.as_str(),
        None => "",
    };
    match parse_permissions_block(raw) {
        Ok(grants) => Ok(
            NewRole {
                name: trimmed(form.name.as_str()),
                description: trimmed(description),
                grants,
            },
        ),
        Err(e) => Err(Reply { status: 400, body: e }),
    }
}

/// The answer where a role could not be made.
pub fn create_failed(name: &str, error: &str) -> (r: Reply)
    ensures
        r.is(400, failure_text("create role"@, name@, error@)),
{
    failure("create role", name, error)
}

/// The answer where a role could not be deleted.
pub fn delete_failed(name: &str, error: &str) -> (r: Reply)
    ensures
        r.is(400, failure_text("delete role"@, name@, error@)),
{
    failure("delete role", name, error)
}

/// A line grants what it says: the resource stands in front of its last colon, and each letter
/// behind it gives one permission, `r` to read, `w` to write, `x` to execute, `q` to query and
/// `o` to observe, whatever its case and the blanks around.
pub proof fn law_lines_grant_what_they_say(resource: Seq<char>, flags: Seq<char>, grant: Grant)
    requires
        resource.len() > 0 && !whitespace(resource[0]) && !whitespace(resource.last()),
        resource[0] != '#',
        flags.len() > 0 && !whitespace(flags[0]) && !whitespace(flags.last()),
        !flags.contains(':'),
    ensures
        ({
            let said = line_says(resource + seq![':'] + flags);
            &&& (forall|i: int|
                0 <= i < lowercased(flags).len() ==> known_flag(#[trigger] lowercased(flags)[i]))
                ==> said == LineV::Grants(GrantV { resource, flags: lowercased(flags) })
            &&& (exists|i: int|
                0 <= i < lowercased(flags).len() && !known_flag(#[trigger] lowercased(flags)[i]))
                ==> said is Unknown && !known_flag(said->Unknown_0)
            &&& said is Grants && gives(grant, said->Grants_0) ==> {
                &&& grant.resource@ == resource
                &&& grant.read <==> lowercased(flags).contains('r')
                &&& grant.write <==> lowercased(flags).contains('w')
                &&& grant.execute <==> lowercased(flags).contains('x')
                &&& grant.query <==> lowercased(flags).contains('q')
                &&& grant.observe <==> lowercased(flags).contains('o')
            }
        }),
        known_flag('r') && known_flag('w') && known_flag('x') && known_flag('q') && known_flag('o'),
        !known_flag('a') && !known_flag('z') && !known_flag('+') && !known_flag(' '),
{
    let none = Seq::<char>::empty();
    let text = resource + seq![':'] + flags;
    assert(text.last() == flags.last());
    assert(text[0] == resource[0]);
    law_trimming_cuts_the_ends(none, text, none);
    assert(none + text + none =~= text);
    lemma_last_colon(resource, flags);
    assert(text.take(resource.len() as int) =~= resource);
    assert(text.skip(resource.len() as int + 1) =~= flags);
    law_trimming_cuts_the_ends(none, resource, none);
    assert(none + resource + none =~= resource);
    law_trimming_cuts_the_ends(none, flags, none);
    assert(none + flags + none =~= flags);
    lemma_flags_are_known(lowercased(flags));
}

proof fn lemma_last_colon(a: Seq<char>, b: Seq<char>)
    requires
        !b.contains(':'),
    ensures
        last_index_of(a + seq![':'] + b, ':') == a.len(),
    decreases b.len(),
{
    let s = a + seq![':'] + b;
    if b.len() > 0 {
        assert(b[b.len() - 1] != ':');
        assert(s.last() == b.last());
        assert forall|i: int| 0 <= i < b.drop_last().len() implies #[trigger] b.drop_last()[i]
            != ':' by {
            assert(b.drop_last()[i] == b[i]);
        }
        lemma_last_colon(a, b.drop_last());
        assert(s.drop_last() =~= a + seq![':'] + b.drop_last());
    } else {
        assert(s.last() == ':');
    }
}

proof fn lemma_flags_are_known(flags: Seq<char>)
    ensures
        unknown_flag(flags) is None <==> forall|i: int|
            0 <= i < flags.len() ==> known_flag(#[trigger] flags[i]),
        unknown_flag(flags) is Some ==> !known_flag(unknown_flag(flags)->0) && flags.contains(
            unknown_flag(flags)->0,
        ),
    decreases flags.len(),
{
    if flags.len() > 0 {
        lemma_flags_are_known(flags.drop_first());
        assert forall|i: int| 0 < i < flags.len() implies flags.drop_first()[i - 1]
            == #[trigger] flags[i] by {
        }
        if known_flag(flags[0]) {
            if unknown_flag(flags) is Some {
                let c = unknown_flag(flags)->0;
                let k = choose|k: int|
                    0 <= k < flags.drop_first().len() && flags.drop_first()[k] == c;
                assert(flags[k + 1] == c);
            } else {
                assert forall|i: int| 0 <= i < flags.len() implies known_flag(
                    #[trigger] flags[i],
                ) by {
                    if i > 0 {
                        assert(known_flag(flags.drop_first()[i - 1]));
                    }
                }
            }
        } else {
            assert(flags.contains(flags[0]));
        }
    }
}

/// A block of lines grants what its lines grant, in their order. One wrong line spoils the block,
/// and the complaint names the first wrong line by its number.
pub proof fn law_blocks_grant_line_by_line(lines: Seq<Seq<char>>, line: Seq<char>)
    ensures
        block_says(Seq::empty()) == Ok::<Seq<GrantV>, Seq<char>>(Seq::empty()),
        block_says(lines) is Err ==> block_says(lines.push(line)) == block_says(lines),
        block_says(lines) is Ok && line_says(line) is Grants ==> block_says(lines.push(line))
            == Ok::<Seq<GrantV>, Seq<char>>(block_says(lines)->Ok_0.push(line_says(line)->Grants_0)),
        block_says(lines) is Ok && line_says(line) is Nothing ==> block_says(lines.push(line))
            == block_says(lines),
        block_says(lines) is Ok && (line_says(line) is Shapeless || line_says(line) is Unknown)
            ==> block_says(lines.push(line)) is Err && contains_text(
            block_says(lines.push(line))->Err_0,
            "at line "@ + decimal(lines.len() + 1),
        ),
{
    assert(lines.push(line).drop_last() =~= lines);
    let n = decimal(lines.len() + 1);
    let wanted = "at line "@ + n;
    reveal_strlit("Invalid permission at line ");
    reveal_strlit("at line ");
    reveal_strlit("' at line ");
    let shapeless = shapeless_text(lines.len() + 1);
    assert(shapeless.subrange(19, (19 + wanted.len()) as int) =~= wanted);
    assert(occurs_at(shapeless, wanted, 19));
    if line_says(line) is Unknown {
        let c = line_says(line)->Unknown_0;
        let unknown = unknown_text(c, lines.len() + 1);
        let at = "Invalid permission flag '"@.len() + 3;
        assert(unknown.subrange(at as int, (at + wanted.len()) as int) =~= wanted);
        assert(occurs_at(unknown, wanted, at as int));
    }
}

} // verus!
