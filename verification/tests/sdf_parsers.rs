use tydi::design::{Interface, Mode, Streamlet};
use tydi::logical::{Direction, LogicalStreamType, PositiveReal, Stream, Synchronicity};
use tydi::name::Name;
use tydi::phys::Complexity;
use tydi::sdf::{
    bits, bool, comment, comment_delimited, comment_doc, comment_doc_block, comment_line, complexity,
    direction, doc, group, interface, list_of_streamlets, logical_stream_type, mode, name, null, stream,
    streamlet, synchronicity, take_until_newline_or_eof, union,
};

fn n(s: &str) -> Name {
    Name::try_new(s).unwrap()
}

fn bits_of(b: usize) -> LogicalStreamType {
    LogicalStreamType::try_new_bits(b).unwrap()
}

fn nulls_streamlet(s: &str) -> Streamlet {
    Streamlet::from_builder(
        n(s),
        vec![
            Interface::try_new(n("a"), Mode::In, LogicalStreamType::Null, None).unwrap(),
            Interface::try_new(n("b"), Mode::Out, LogicalStreamType::Null, None).unwrap(),
        ],
        None,
    )
    .unwrap()
}

#[test]
fn parse_comment() {
    assert_eq!(comment("/* this is a comment */"), Ok(("", "")));
    assert_eq!(comment("/* this is a ****** / comment */"), Ok(("", "")));
    assert_eq!(comment("// this is a line comment..."), Ok(("", "")));
    assert_eq!(
        comment("/// this is a doc comment..."),
        Ok(("", " this is a doc comment..."))
    );
}

#[test]
fn parse_docstring() {
    assert_eq!(
        doc("/// hello
// not a doc string
/// docstring"),
        Ok(("", Some(" hello\n docstring".to_string())))
    )
}

#[test]
fn parse_name() {
    assert_eq!(name("test"), Ok(("", Name::try_new("test").unwrap())));
    assert_eq!(
        name("test abc"),
        Ok((" abc", Name::try_new("test").unwrap()))
    );
    assert!(name("1test").is_err());
}

#[test]
fn parse_bool() {
    assert_eq!(bool("true"), Ok(("", true)));
    assert_eq!(bool("false"), Ok(("", false)));
    assert!(bool("_").is_err())
}

#[test]
fn parse_null() {
    assert_eq!(null("Null"), Ok(("", LogicalStreamType::Null)));
    assert!(null("null").is_err());
}

#[test]
fn nom_parse_bits() {
    assert_eq!(
        bits("Bits<3>"),
        Ok(("", LogicalStreamType::try_new_bits(3).unwrap()))
    );
}

#[test]
fn nom_parse_group() {
    assert_eq!(
        group("Group< a    :  Null ,  b:Bits<5>>"),
        Ok((
            "",
            LogicalStreamType::try_new_group(vec![
                (n("a"), LogicalStreamType::Null),
                (n("b"), LogicalStreamType::try_new_bits(5).unwrap())
            ])
            .unwrap()
        ))
    );
}

#[test]
fn nom_parse_union() {
    assert_eq!(
        union("Union<a:Null,b:Bits<5>>"),
        Ok((
            "",
            LogicalStreamType::try_new_union(vec![
                (n("a"), LogicalStreamType::Null),
                (n("b"), LogicalStreamType::try_new_bits(5).unwrap())
            ])
            .unwrap()
        ))
    );
}

#[test]
fn parse_complexity() {
    assert_eq!(
        complexity("5.2.4.5"),
        Ok(("", Complexity::new(vec![5, 2, 4, 5]).unwrap()))
    );
}

#[test]
fn parse_synchronicity() {
    assert_eq!(synchronicity("Sync"), Ok(("", Synchronicity::Sync)));
    assert_eq!(synchronicity("Desync"), Ok(("", Synchronicity::Desync)));
    assert_eq!(synchronicity("Flatten"), Ok(("", Synchronicity::Flatten)));
    assert_eq!(
        synchronicity("FlatDesync"),
        Ok(("", Synchronicity::FlatDesync))
    );
}

#[test]
fn parse_direction() {
    assert_eq!(direction("Forward"), Ok(("", Direction::Forward)));
    assert_eq!(direction("Reverse"), Ok(("", Direction::Reverse)));
}

#[test]
fn parse_mode() {
    assert_eq!(mode("in"), Ok(("", Mode::In)));
    assert_eq!(mode("out"), Ok(("", Mode::Out)));
}

#[test]
fn parse_interface() {
    assert_eq!(
        interface("a :  in Null"),
        Ok((
            "",
            Interface::try_new(n("a"), Mode::In, LogicalStreamType::Null, None).unwrap()
        ))
    );
    assert_eq!(
        interface(
            "/// This is a sweet interface
            b:out Bits<1>"
        ),
        Ok((
            "",
            Interface::try_new(
                n("b"),
                Mode::Out,
                LogicalStreamType::try_new_bits(1).unwrap(),
                Some(" This is a sweet interface")
            )
            .unwrap()
        ))
    );
}

#[test]
fn parse_stream() {
    assert_eq!(
        stream("Stream< Union< a  :  Null  ,b:Bits<1>,c:Group<d:Null,e:Null>>,t=0.01 ,d=2,c=4.2,u=Group<u0:Bits<1>,u1:Bits<2>>,x=false>"),
        Ok((
            "",
            LogicalStreamType::new_stream(Stream::new(
                LogicalStreamType::try_new_union(vec![
                    (n("a"), LogicalStreamType::Null),
                    (n("b"), LogicalStreamType::try_new_bits(1).unwrap()),
                    (
                        n("c"),
                        LogicalStreamType::try_new_group(vec![
                            (n("d"), LogicalStreamType::Null),
                            (n("e"), LogicalStreamType::Null),
                        ])
                        .unwrap(),
                    ),
                ])
                .unwrap(),
                PositiveReal::try_new("0.01").unwrap(),
                2,
                Synchronicity::default(),
                Complexity::new(vec![4, 2]).unwrap(),
                Direction::Forward,
                Some(Box::new(
                    LogicalStreamType::try_new_group(vec![(n("u0"), bits_of(1)), (n("u1"), bits_of(2))]).unwrap(),
                )),
                false,
            ))
        ))
    );
}

#[test]
fn parse_streamlet() {
    assert_eq!(
        streamlet(
            "Streamlet test (\n  a : in Group< a : Bits< 1 >,\n                b : Bits< 2>\n              >,\n  c : out Null\n)"
        ),
        Ok((
            "",
            Streamlet::from_builder(
                Name::try_new("test").unwrap(),
                vec![
                    Interface::try_new(
                        n("a"),
                        Mode::In,
                        LogicalStreamType::try_new_group(vec![(n("a"), bits_of(1)), (n("b"), bits_of(2))]).unwrap(),
                        None
                    )
                    .unwrap(),
                    Interface::try_new(n("c"), Mode::Out, LogicalStreamType::Null, None).unwrap(),
                ],
                None
            )
            .unwrap()
        ))
    );
}

#[test]
fn parse_streamlet_docstring() {
    assert_eq!(
        streamlet(
            "/// Test
// some other stuff
  /* that people could put here */
/* even though */ // it's not pretty
    ///  unaligned doc string

            Streamlet x (
            /// Such a weird interface
            a : in Null,
            /// And another one
            b : out Null )"
        ),
        Ok((
            "",
            Streamlet::from_builder(
                Name::try_new("x").unwrap(),
                vec![
                    Interface::try_new(
                        n("a"),
                        Mode::In,
                        LogicalStreamType::Null,
                        Some(" Such a weird interface")
                    )
                    .unwrap(),
                    Interface::try_new(
                        n("b"),
                        Mode::Out,
                        LogicalStreamType::Null,
                        Some(" And another one")
                    )
                    .unwrap(),
                ],
                Some(" Test\n  unaligned doc string"),
            )
            .unwrap()
        ))
    );
}

#[test]
fn parse_list_of_streamlets() {
    assert_eq!(
        list_of_streamlets(
            "Streamlet a ( a: in Null, b: out Null)\n/* A comment */\nStreamlet b ( a: in Null, b: out Null)\n/// Multi-line...\n/// doc string...\nStreamlet c ( a: in Null, b: out Null)"
        ),
        Ok((
            "",
            vec![
                nulls_streamlet("a"),
                nulls_streamlet("b"),
                nulls_streamlet("c").with_doc(" Multi-line...\n doc string..."),
            ]
        ))
    );
}

#[test]
fn comment_kinds_one_by_one() {
    assert_eq!(comment_delimited("/* x */ rest"), Ok((" rest", "")));
    assert!(comment_delimited("/* never closed").is_err());
    assert_eq!(comment_line("// x\nnext"), Ok(("\nnext", "")));
    assert_eq!(comment_line("//\nabc"), Ok(("\nabc", "")));
    assert!(comment_line("/// doc").is_err());
    assert_eq!(comment_doc("/// doc\nnext"), Ok(("\nnext", " doc")));
    assert_eq!(take_until_newline_or_eof("abc\ndef"), Ok(("\ndef", "abc")));
    assert_eq!(take_until_newline_or_eof("abc"), Ok(("", "abc")));
    assert_eq!(
        comment_doc_block("/// a\n/* b */ /// c\nStreamlet"),
        Ok(("Streamlet", vec![" a", "", " c"]))
    );
    assert_eq!(doc("// only a line comment\nx"), Ok(("x", None)));
}

#[test]
fn stream_defaults_and_refusals() {
    assert_eq!(
        stream("Stream<Bits<1>>"),
        Ok((
            "",
            LogicalStreamType::new_stream(Stream::new(
                bits_of(1),
                PositiveReal::one(),
                0,
                Synchronicity::Sync,
                Complexity::default(),
                Direction::Forward,
                None,
                false,
            ))
        ))
    );
    assert_eq!(
        stream("Stream<Bits<4>, t=0.5, d=2, s=FlatDesync, r=Reverse, u=Bits<5>, x=true>"),
        Ok((
            "",
            LogicalStreamType::new_stream(Stream::new(
                bits_of(4),
                PositiveReal::try_new("0.5").unwrap(),
                2,
                Synchronicity::FlatDesync,
                Complexity::default(),
                Direction::Reverse,
                Some(Box::new(bits_of(5))),
                true,
            ))
        ))
    );
    // A throughput of zero is refused.
    assert!(stream("Stream<Bits<1>, t=0>").is_err());
    // A later option overrides an earlier one for the same key.
    assert_eq!(
        stream("Stream<Null, d=1, d=3>").map(|(_, t)| match t {
            LogicalStreamType::Stream(s) => s.dimensionality(),
            _ => 0,
        }),
        Ok(3)
    );
    assert!(bits("Bits<0>").is_err());
    assert!(group("Group<a: Null, a: Bits<1>>").is_err());
    assert_eq!(logical_stream_type("Null tail"), Ok((" tail", LogicalStreamType::Null)));
    assert!(interface("clk : in Null").is_err());
    assert!(streamlet("Streamlet s ( a : in Null, a : out Null )").is_err());
}

#[test]
fn numbers_too_large_for_a_usize_do_not_match() {
    assert!(bits("Bits<18446744073709551616>").is_err());
    assert_eq!(
        bits("Bits<18446744073709551615>"),
        Ok(("", LogicalStreamType::try_new_bits(18446744073709551615).unwrap()))
    );
    let (rest, c) = complexity("3.18446744073709551616").unwrap();
    assert_eq!(rest, ".18446744073709551616");
    assert_eq!(c, Complexity::new(vec![3]).unwrap());
    let (_, t) = stream("Stream<Bits<1>, t=100000000000000000000, d=100000000000000000000>").unwrap();
    match t {
        LogicalStreamType::Stream(s) => {
            assert_eq!(s.throughput().literal(), "100000000000000000000");
            assert_eq!(s.dimensionality(), 0);
        },
        _ => panic!("not a stream"),
    }
    assert_eq!(name("a123456789012345678901234567890"), Ok(("", n("a123456789012345678901234567890"))));
}
