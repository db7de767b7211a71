//! The text that carries arguments to pluggable transports.
use vstd::prelude::*;

use crate::text;

verus! {

/// `s` with a backslash in front of each backslash, each `a` and each `b`.
pub open spec fn escaped(s: Seq<char>, a: char, b: char) -> Seq<char>
    decreases s.len(),
{
    if s.len() == 0 {
        seq![]
    } else if s[0] == '\\' || s[0] == a || s[0] == b {
        seq!['\\', s[0]] + escaped(s.drop_first(), a, b)
    } else {
        seq![s[0]] + escaped(s.drop_first(), a, b)
    }
}

fn push_escaped(out: &mut String, s: &str, a: char, b: char)
    ensures
        final(out)@ == old(out)@ + escaped(s@, a, b),
{
    let chars = text::chars_of(s);
    let mut i: usize = 0;
    proof {
        assert(chars@.skip(0) =~= chars@);
    }
    while i < chars.len()
        invariant
            chars@ == s@,
            i <= chars@.len(),
            old(out)@ + escaped(s@, a, b) =~= out@ + escaped(chars@.skip(i as int), a, b),
        decreases chars@.len() - i,
    {
        let c = chars[i];
        proof {
            assert(chars@.skip(i as int)[0] == c);
            assert(chars@.skip(i as int).drop_first() =~= chars@.skip(i + 1));
        }
        if c == '\\' || c == a || c == b {
            out.push('\\');
        }
        out.push(c);
        i = i + 1;
    }
}

// ---------------------------------------------------------------------------
// Connection arguments
// ---------------------------------------------------------------------------

/// One connection argument: `key=value`, escaped.
pub open spec fn encoded_arg(arg: (Seq<char>, Seq<char>)) -> Seq<char> {
    escaped(arg.0, ';', '=') + seq!['='] + escaped(arg.1, ';', '=')
}

/// Connection arguments with semicolons between them.
pub open spec fn encoded_args(args: Seq<(Seq<char>, Seq<char>)>) -> Seq<char>
    decreases args.len(),
{
    if args.len() == 0 {
        seq![]
    } else if args.len() == 1 {
        encoded_arg(args[0])
    } else {
        encoded_arg(args[0]) + seq![';'] + encoded_args(args.drop_first())
    }
}

/// Encode PT connection args as `key=val;key=val` with backslash-escaping
/// of `\`, `;`, and `=` in both keys and values (pt-spec §3.5), suitable
/// for the SOCKS5 username field.
pub fn encode_pt_args(args: &[(String, String)]) -> (r: String)
    ensures
        r@ == encoded_args(text::pair_texts(args@)),
{
    let mut out = String::new();
    let ghost all = text::pair_texts(args@);
    let mut i: usize = 0;
    proof {
        assert(all.skip(0) =~= all);
    }
    while i < args.len()
        invariant
            all == text::pair_texts(args@),
            i <= args@.len(),
            encoded_args(all) =~= out@ + (if 0 < i < all.len() {
                seq![';']
            } else {
                seq![]
            }) + encoded_args(all.skip(i as int)),
        decreases args@.len() - i,
    {
        proof {
            assert(all.skip(i as int)[0] == all[i as int]);
            assert(all.skip(i as int).drop_first() =~= all.skip(i + 1));
        }
        if i > 0 {
            out.push(';');
        }
        push_escaped(&mut out, args[i].0.as_str(), ';', '=');
        out.push('=');
        push_escaped(&mut out, args[i].1.as_str(), ';', '=');
        i = i + 1;
    }
    out
}

/// What a reader of connection arguments makes of `s`, the rest of a text, in
/// the middle of an argument: it drops a backslash and keeps what follows,
/// takes the first `=` for the end of the key and a `;` for the end of the
/// argument.
pub open spec fn read_args(
    s: Seq<char>,
    key: Seq<char>,
    value: Seq<char>,
    in_value: bool,
) -> Seq<(Seq<char>, Seq<char>)>
    decreases s.len(),
{
    if s.len() == 0 {
        seq![(key, value)]
    } else if s[0] == '\\' && s.len() > 1 {
        if in_value {
            read_args(s.skip(2), key, value.push(s[1]), true)
        } else {
            read_args(s.skip(2), key.push(s[1]), value, false)
        }
    } else if s[0] == ';' {
        seq![(key, value)] + read_args(s.skip(1), seq![], seq![], false)
    } else if s[0] == '=' && !in_value {
        read_args(s.skip(1), key, value, true)
    } else if in_value {
        read_args(s.skip(1), key, value.push(s[0]), true)
    } else {
        read_args(s.skip(1), key.push(s[0]), value, false)
    }
}

/// What a reader makes of a text of connection arguments.
pub open spec fn decoded_args(s: Seq<char>) -> Seq<(Seq<char>, Seq<char>)> {
    if s.len() == 0 {
        seq![]
    } else {
        read_args(s, seq![], seq![], false)
    }
}

proof fn lemma_read_escaped(
    x: Seq<char>,
    rest: Seq<char>,
    key: Seq<char>,
    value: Seq<char>,
    in_value: bool,
)
    ensures
        read_args(escaped(x, ';', '=') + rest, key, value, in_value) == (if in_value {
            read_args(rest, key, value + x, true)
        } else {
            read_args(rest, key + x, value, false)
        }),
    decreases x.len(),
{
    if x.len() == 0 {
        assert(escaped(x, ';', '=') + rest =~= rest);
        assert(key + x =~= key);
        assert(value + x =~= value);
    } else {
        let more = escaped(x.drop_first(), ';', '=') + rest;
        let all = escaped(x, ';', '=') + rest;
        if x[0] == '\\' || x[0] == ';' || x[0] == '=' {
            assert(all =~= seq!['\\', x[0]] + more);
            assert(all.skip(2) =~= more);
        } else {
            assert(all =~= seq![x[0]] + more);
            assert(all.skip(1) =~= more);
        }
        if in_value {
            lemma_read_escaped(x.drop_first(), rest, key, value.push(x[0]), true);
            assert(value.push(x[0]) + x.drop_first() =~= value + x);
        } else {
            lemma_read_escaped(x.drop_first(), rest, key.push(x[0]), value, false);
            assert(key.push(x[0]) + x.drop_first() =~= key + x);
        }
    }
}

proof fn lemma_read_arg(arg: (Seq<char>, Seq<char>), rest: Seq<char>)
    ensures
        read_args(encoded_arg(arg) + rest, seq![], seq![], false) == read_args(
            rest,
            arg.0,
            arg.1,
            true,
        ),
{
    let tail = escaped(arg.1, ';', '=') + rest;
    assert(encoded_arg(arg) + rest =~= escaped(arg.0, ';', '=') + (seq!['='] + tail));
    lemma_read_escaped(arg.0, seq!['='] + tail, seq![], seq![], false);
    assert(Seq::<char>::empty() + arg.0 =~= arg.0);
    assert((seq!['='] + tail).skip(1) =~= tail);
    lemma_read_escaped(arg.1, rest, arg.0, seq![], true);
    assert(Seq::<char>::empty() + arg.1 =~= arg.1);
}

/// The text of connection arguments gives back what went into it, whatever
/// characters keys and values hold.
pub proof fn encoded_args_decode(args: Seq<(Seq<char>, Seq<char>)>)
    ensures
        decoded_args(encoded_args(args)) == args,
    decreases args.len(),
{
    if args.len() == 0 {
        assert(args =~= seq![]);
    } else {
        let first = encoded_arg(args[0]);
        assert(first.len() > 0);
        if args.len() == 1 {
            lemma_read_arg(args[0], seq![]);
            assert(first + Seq::<char>::empty() =~= first);
            assert(args =~= seq![(args[0].0, args[0].1)]);
        } else {
            let rest = encoded_args(args.drop_first());
            encoded_args_decode(args.drop_first());
            assert(rest.len() > 0);
            assert(first + seq![';'] + rest =~= first + (seq![';'] + rest));
            lemma_read_arg(args[0], seq![';'] + rest);
            assert((seq![';'] + rest).skip(1) =~= rest);
            assert(args =~= seq![(args[0].0, args[0].1)] + args.drop_first());
        }
    }
}

// ---------------------------------------------------------------------------
// Server options
// ---------------------------------------------------------------------------

/// One server option: `transport:key=value`, escaped.
pub open spec fn encoded_option(protocol: Seq<char>, arg: (Seq<char>, Seq<char>)) -> Seq<char> {
    escaped(protocol, ':', ';') + seq![':'] + escaped(arg.0, ':', ';') + seq!['='] + escaped(
        arg.1,
        ':',
        ';',
    )
}

/// Server options with semicolons between them.
pub open spec fn encoded_options(
    protocol: Seq<char>,
    args: Seq<(Seq<char>, Seq<char>)>,
) -> Seq<char>
    decreases args.len(),
{
    if args.len() == 0 {
        seq![]
    } else if args.len() == 1 {
        encoded_option(protocol, args[0])
    } else {
        encoded_option(protocol, args[0]) + seq![';'] + encoded_options(protocol, args.drop_first())
    }
}

/// Encode server-side transport options for `TOR_PT_SERVER_TRANSPORT_OPTIONS`
/// (pt-spec §3.2.3): a semicolon-separated list of `<transport>:<key>=<value>`
/// entries, with `\`, `:`, and `;` backslash-escaped.
pub fn encode_server_transport_options(protocol: &str, options: &[(String, String)]) -> (r: String)
    ensures
        r@ == encoded_options(protocol@, text::pair_texts(options@)),
{
    let mut out = String::new();
    let ghost all = text::pair_texts(options@);
    let mut i: usize = 0;
    proof {
        assert(all.skip(0) =~= all);
    }
    while i < options.len()
        invariant
            all == text::pair_texts(options@),
            i <= options@.len(),
            encoded_options(protocol@, all) =~= out@ + (if 0 < i < all.len() {
                seq![';']
            } else {
                seq![]
            }) + encoded_options(protocol@, all.skip(i as int)),
        decreases options@.len() - i,
    {
        proof {
            assert(all.skip(i as int)[0] == all[i as int]);
            assert(all.skip(i as int).drop_first() =~= all.skip(i + 1));
        }
        if i > 0 {
            out.push(';');
        }
        push_escaped(&mut out, protocol, ':', ';');
        out.push(':');
        push_escaped(&mut out, options[i].0.as_str(), ':', ';');
        out.push('=');
        push_escaped(&mut out, options[i].1.as_str(), ':', ';');
        i = i + 1;
    }
    out
}

/// A server option as a reader sees it.
pub struct ServerOption {
    pub transport: Seq<char>,
    pub key: Seq<char>,
    pub value: Seq<char>,
}

/// The part of a server option that a reader is in.
pub enum OptionPart {
    Transport,
    Key,
    Value,
}

/// `o` with `x` at the end of the part that is being read.
pub open spec fn extended(o: ServerOption, part: OptionPart, x: Seq<char>) -> ServerOption {
    match part {
        OptionPart::Transport => ServerOption { transport: o.transport + x, ..o },
        OptionPart::Key => ServerOption { key: o.key + x, ..o },
        OptionPart::Value => ServerOption { value: o.value + x, ..o },
    }
}

/// A server option before anything of it has been read.
pub open spec fn no_option() -> ServerOption {
    ServerOption { transport: seq![], key: seq![], value: seq![] }
}

/// What a reader of server options makes of `s`, the rest of a text, in the
/// middle of an option: it drops a backslash and keeps what follows, takes
/// the first `:` for the end of the transport, the first `=` after that for
/// the end of the key and a `;` for the end of the option.
pub open spec fn read_server_options(
    s: Seq<char>,
    o: ServerOption,
    part: OptionPart,
) -> Seq<ServerOption>
    decreases s.len(),
{
    if s.len() == 0 {
        seq![o]
    } else if s[0] == '\\' && s.len() > 1 {
        read_server_options(s.skip(2), extended(o, part, seq![s[1]]), part)
    } else if s[0] == ';' {
        seq![o] + read_server_options(s.skip(1), no_option(), OptionPart::Transport)
    } else if s[0] == ':' && part is Transport {
        read_server_options(s.skip(1), o, OptionPart::Key)
    } else if s[0] == '=' && part is Key {
        read_server_options(s.skip(1), o, OptionPart::Value)
    } else {
        read_server_options(s.skip(1), extended(o, part, seq![s[0]]), part)
    }
}

/// What a reader makes of a text of server options.
pub open spec fn decoded_options(s: Seq<char>) -> Seq<ServerOption> {
    if s.len() == 0 {
        seq![]
    } else {
        read_server_options(s, no_option(), OptionPart::Transport)
    }
}

proof fn lemma_read_escaped_option(
    x: Seq<char>,
    rest: Seq<char>,
    o: ServerOption,
    part: OptionPart,
)
    requires
        part is Key ==> !x.contains('='),
    ensures
        read_server_options(escaped(x, ':', ';') + rest, o, part) == read_server_options(
            rest,
            extended(o, part, x),
            part,
        ),
    decreases x.len(),
{
    if x.len() == 0 {
        assert(escaped(x, ':', ';') + rest =~= rest);
        assert(o.transport + x =~= o.transport && o.key + x =~= o.key && o.value + x =~= o.value);
    } else {
        let more = escaped(x.drop_first(), ':', ';') + rest;
        let all = escaped(x, ':', ';') + rest;
        assert(x.contains(x[0]));
        if x[0] == '\\' || x[0] == ':' || x[0] == ';' {
            assert(all =~= seq!['\\', x[0]] + more);
            assert(all.skip(2) =~= more);
        } else {
            assert(all =~= seq![x[0]] + more);
            assert(all.skip(1) =~= more);
        }
        if part is Key && x.drop_first().contains('=') {
            let i = choose|i: int| 0 <= i < x.drop_first().len() && x.drop_first()[i] == '=';
            assert(x[i + 1] == '=');
        }
        let next = extended(o, part, seq![x[0]]);
        lemma_read_escaped_option(x.drop_first(), rest, next, part);
        assert(o.transport + seq![x[0]] + x.drop_first() =~= o.transport + x);
        assert(o.key + seq![x[0]] + x.drop_first() =~= o.key + x);
        assert(o.value + seq![x[0]] + x.drop_first() =~= o.value + x);
    }
}

proof fn lemma_read_option(protocol: Seq<char>, arg: (Seq<char>, Seq<char>), rest: Seq<char>)
    requires
        !arg.0.contains('='),
    ensures
        read_server_options(
            encoded_option(protocol, arg) + rest,
            no_option(),
            OptionPart::Transport,
        ) == read_server_options(
            rest,
            ServerOption { transport: protocol, key: arg.0, value: arg.1 },
            OptionPart::Value,
        ),
{
    let none = Seq::<char>::empty();
    let v = escaped(arg.1, ':', ';') + rest;
    let k = escaped(arg.0, ':', ';') + (seq!['='] + v);
    assert(encoded_option(protocol, arg) + rest =~= escaped(protocol, ':', ';') + (seq![':'] + k));
    lemma_read_escaped_option(protocol, seq![':'] + k, no_option(), OptionPart::Transport);
    assert(none + protocol =~= protocol);
    assert((seq![':'] + k).skip(1) =~= k);
    let o1 = ServerOption { transport: protocol, key: none, value: none };
    lemma_read_escaped_option(arg.0, seq!['='] + v, o1, OptionPart::Key);
    assert(none + arg.0 =~= arg.0);
    assert((seq!['='] + v).skip(1) =~= v);
    let o2 = ServerOption { transport: protocol, key: arg.0, value: none };
    lemma_read_escaped_option(arg.1, rest, o2, OptionPart::Value);
    assert(none + arg.1 =~= arg.1);
}

/// The text of server options gives back what went into it, with the transport
/// at each option, where no key holds a `=`.
pub proof fn encoded_options_decode(protocol: Seq<char>, args: Seq<(Seq<char>, Seq<char>)>)
    requires
        forall|i: int| 0 <= i < args.len() ==> !(#[trigger] args[i]).0.contains('='),
    ensures
        decoded_options(encoded_options(protocol, args)) == Seq::new(
            args.len(),
            |i: int| ServerOption { transport: protocol, key: args[i].0, value: args[i].1 },
        ),
    decreases args.len(),
{
    let want = Seq::new(
        args.len(),
        |i: int| ServerOption { transport: protocol, key: args[i].0, value: args[i].1 },
    );
    if args.len() == 0 {
        assert(want =~= seq![]);
    } else {
        let first = encoded_option(protocol, args[0]);
        assert(first.len() > 0);
        if args.len() == 1 {
            lemma_read_option(protocol, args[0], seq![]);
            assert(first + Seq::<char>::empty() =~= first);
            assert(want =~= seq![want[0]]);
        } else {
            let rest = encoded_options(protocol, args.drop_first());
            encoded_options_decode(protocol, args.drop_first());
            assert(rest.len() > 0);
            assert(first + seq![';'] + rest =~= first + (seq![';'] + rest));
            lemma_read_option(protocol, args[0], seq![';'] + rest);
            assert((seq![';'] + rest).skip(1) =~= rest);
            assert(want =~= seq![want[0]] + decoded_options(rest));
        }
    }
}

// ---------------------------------------------------------------------------
// Laws
// ---------------------------------------------------------------------------

/// A text is escaped character by character: a backslash goes in front of each
/// backslash and of each of the two given characters, and of no other.
pub proof fn only_special_characters_are_escaped(
    x: Seq<char>,
    y: Seq<char>,
    c: char,
    a: char,
    b: char,
)
    ensures
        escaped(x + y, a, b) == escaped(x, a, b) + escaped(y, a, b),
        c == '\\' || c == a || c == b ==> escaped(seq![c], a, b) == seq!['\\', c],
        c != '\\' && c != a && c != b ==> escaped(seq![c], a, b) == seq![c],
        escaped(seq![], a, b) == Seq::<char>::empty(),
    decreases x.len(),
{
    let none = Seq::<char>::empty();
    assert(escaped(none, a, b) =~= none);
    assert(seq![c].drop_first() =~= none);
    assert(seq![c] + none =~= seq![c]);
    assert(seq!['\\', c] + none =~= seq!['\\', c]);
    if x.len() == 0 {
        assert(x =~= none);
        assert(x + y =~= y);
        assert(none + escaped(y, a, b) =~= escaped(y, a, b));
    } else {
        only_special_characters_are_escaped(x.drop_first(), y, c, a, b);
        assert((x + y).drop_first() =~= x.drop_first() + y);
        assert((x + y)[0] == x[0]);
        assert(escaped(x + y, a, b) =~= escaped(x, a, b) + escaped(y, a, b));
    }
}

/// A text without special characters goes as it is.
pub proof fn plain_text_is_not_changed(x: Seq<char>, a: char, b: char)
    requires
        !x.contains('\\'),
        !x.contains(a),
        !x.contains(b),
    ensures
        escaped(x, a, b) == x,
    decreases x.len(),
{
    if x.len() == 0 {
        assert(escaped(x, a, b) =~= x);
    } else {
        let t = x.drop_first();
        assert(x.contains(x[0]));
        assert forall|d: char| t.contains(d) implies x.contains(d) by {
            let i = choose|i: int| 0 <= i < t.len() && t[i] == d;
            assert(x[i + 1] == d);
        }
        plain_text_is_not_changed(t, a, b);
        assert(seq![x[0]] + t =~= x);
    }
}

/// An argument is its key, a `=` and its value, with a backslash in front of
/// each backslash, `;` and `=` of both; a server option is the transport, a
/// `:`, the key, a `=` and the value, with a backslash in front of each
/// backslash, `:` and `;` of them.
pub proof fn arguments_are_written_as_key_and_value(
    protocol: Seq<char>,
    key: Seq<char>,
    value: Seq<char>,
)
    ensures
        encoded_args(seq![(key, value)]) == escaped(key, ';', '=') + seq!['='] + escaped(
            value,
            ';',
            '=',
        ),
        encoded_options(protocol, seq![(key, value)]) == escaped(protocol, ':', ';') + seq![':']
            + escaped(key, ':', ';') + seq!['='] + escaped(value, ':', ';'),
{
}

/// Rows of arguments that follow each other are written with a `;` between
/// them, and so are rows of server options.
pub proof fn arguments_stand_between_semicolons(
    protocol: Seq<char>,
    a: Seq<(Seq<char>, Seq<char>)>,
    b: Seq<(Seq<char>, Seq<char>)>,
)
    requires
        a.len() > 0,
        b.len() > 0,
    ensures
        encoded_args(a + b) == encoded_args(a) + seq![';'] + encoded_args(b),
        encoded_options(protocol, a + b) == encoded_options(protocol, a) + seq![';']
            + encoded_options(protocol, b),
        encoded_args(seq![]).len() == 0,
        encoded_options(protocol, seq![]).len() == 0,
    decreases a.len(),
{
    let all = a + b;
    assert(all[0] == a[0]);
    if a.len() == 1 {
        assert(all.drop_first() =~= b);
    } else {
        let t = a.drop_first();
        arguments_stand_between_semicolons(protocol, t, b);
        assert(all.drop_first() =~= t + b);
        assert(encoded_args(all) =~= encoded_args(a) + seq![';'] + encoded_args(b));
        assert(encoded_options(protocol, all) =~= encoded_options(protocol, a) + seq![';']
            + encoded_options(protocol, b));
    }
}

} // verus!
