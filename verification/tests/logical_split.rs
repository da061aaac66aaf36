use tydi::logical::{Direction, LogicalStreamType, PositiveReal, Stream, Synchronicity};
use tydi::name::Name;
use tydi::phys::Complexity;
use tydi::split::SplitStreams;

fn name(s: &str) -> Name {
    Name::try_new(s).unwrap()
}

fn bits(n: usize) -> LogicalStreamType {
    LogicalStreamType::try_new_bits(n).unwrap()
}

fn stream_of(data: LogicalStreamType, throughput: &str, dimensionality: usize, synchronicity: Synchronicity, direction: Direction) -> Stream {
    Stream::new(
        data,
        PositiveReal::try_new(throughput).unwrap(),
        dimensionality,
        synchronicity,
        Complexity::new_major(1),
        direction,
        None,
        false,
    )
}

/// A stream of a union of bits, a group and a nested stream whose
/// synchronicity is given.
fn union_stream(nested: Synchronicity) -> LogicalStreamType {
    let b = LogicalStreamType::try_new_group(vec![(name("x"), bits(2)), (name("y"), bits(2))]).unwrap();
    let c = stream_of(bits(4), "1", 1, nested, Direction::Forward);
    let u = LogicalStreamType::try_new_union(vec![
        (name("a"), bits(3)),
        (name("b"), b),
        (name("c"), LogicalStreamType::new_stream(c)),
    ])
    .unwrap();
    LogicalStreamType::new_stream(stream_of(u, "1", 1, Synchronicity::Sync, Direction::Forward))
}

fn paths(s: &SplitStreams) -> Vec<Vec<String>> {
    s.streams
        .iter()
        .map(|x| x.path.iter().map(|n| n.as_str().to_string()).collect())
        .collect()
}

fn dims(s: &SplitStreams) -> Vec<usize> {
    s.streams.iter().map(|x| x.stream.dimensionality()).collect()
}

#[test]
fn union() {
    let split = union_stream(Synchronicity::Sync).split();
    assert_eq!(split.streams.len(), 2);
    assert_eq!(paths(&split), vec![Vec::<String>::new(), vec!["c".to_string()]]);
    let element_fields: Vec<(Vec<String>, usize)> = split
        .streams
        .iter()
        .flat_map(|x| x.stream.data.fields())
        .map(|(p, b)| (p.iter().map(|n| n.as_str().to_string()).collect(), b))
        .collect();
    assert_eq!(
        element_fields,
        vec![
            (vec!["tag".to_string()], 2),
            (vec!["union".to_string()], 3),
            (Vec::<String>::new(), 4),
        ]
    );
    assert_eq!(dims(&split), vec![1, 2]);

    let split = union_stream(Synchronicity::Flatten).split();
    assert_eq!(dims(&split), vec![1, 1]);

    let split = union_stream(Synchronicity::Desync).split();
    assert_eq!(dims(&split), vec![1, 2]);
}

#[test]
fn split_leaves_null_signals_for_a_stream() {
    let split = union_stream(Synchronicity::Sync).split();
    assert!(matches!(split.signals, LogicalStreamType::Null));
    assert!(split.streams[1].stream.data.same(&bits(4)));
}

#[test]
fn split_scales_nested_throughput_by_the_parent() {
    let inner = stream_of(bits(8), "2.5", 1, Synchronicity::Sync, Direction::Forward);
    let g = LogicalStreamType::try_new_group(vec![(name("d"), LogicalStreamType::new_stream(inner))]).unwrap();
    let outer = LogicalStreamType::new_stream(stream_of(g, "0.5", 2, Synchronicity::Sync, Direction::Forward));
    let split = outer.split();
    assert_eq!(paths(&split), vec![vec!["d".to_string()]]);
    let s = &split.streams[0];
    assert_eq!(s.stream.throughput().literal(), "2.5");
    let scale: Vec<&str> = s.scale.iter().map(|p| p.literal()).collect();
    assert_eq!(scale, vec!["0.5"]);
    assert_eq!(s.stream.dimensionality(), 3);
}

#[test]
fn split_reverses_below_a_reverse_parent() {
    let inner = stream_of(bits(1), "1", 0, Synchronicity::Sync, Direction::Forward);
    let outer = LogicalStreamType::new_stream(stream_of(
        LogicalStreamType::new_stream(inner),
        "1",
        1,
        Synchronicity::Flatten,
        Direction::Reverse,
    ));
    let split = outer.split();
    assert_eq!(split.streams.len(), 1);
    let s = &split.streams[0].stream;
    assert_eq!(s.direction(), Direction::Reverse);
    assert_eq!(s.synchronicity(), Synchronicity::FlatDesync);
    assert_eq!(s.dimensionality(), 1);
}

#[test]
fn split_keeps_a_null_stream_that_is_kept() {
    let kept = Stream::new(
        LogicalStreamType::new_null(),
        PositiveReal::one(),
        0,
        Synchronicity::Sync,
        Complexity::new_major(1),
        Direction::Forward,
        None,
        true,
    );
    let split = LogicalStreamType::new_stream(kept).split();
    assert_eq!(split.streams.len(), 1);
    assert!(split.streams[0].path.is_empty());

    let dropped = stream_of(LogicalStreamType::new_null(), "1", 0, Synchronicity::Sync, Direction::Forward);
    let split = LogicalStreamType::new_stream(dropped).split();
    assert!(split.streams.is_empty());
}

#[test]
fn split_of_a_type_without_streams_keeps_it_whole() {
    let g = LogicalStreamType::try_new_group(vec![(name("x"), bits(2)), (name("y"), bits(3))]).unwrap();
    let split = g.split();
    assert!(split.streams.is_empty());
    assert!(split.signals.same(&g));
}

#[test]
fn split_puts_a_nested_stream_under_the_empty_path_in_place() {
    let inner = stream_of(bits(2), "1", 1, Synchronicity::Sync, Direction::Forward);
    let outer = LogicalStreamType::new_stream(Stream::new(
        LogicalStreamType::new_stream(inner),
        PositiveReal::one(),
        1,
        Synchronicity::Sync,
        Complexity::new_major(1),
        Direction::Forward,
        None,
        true,
    ));
    let split = outer.split();
    assert_eq!(split.streams.len(), 1);
    assert!(split.streams[0].stream.data.same(&bits(2)));
    assert_eq!(split.streams[0].stream.dimensionality(), 2);
}

#[test]
fn split_keeps_a_stream_with_user_data() {
    let s = Stream::new(
        LogicalStreamType::new_null(),
        PositiveReal::one(),
        0,
        Synchronicity::Sync,
        Complexity::new_major(1),
        Direction::Forward,
        Some(Box::new(bits(1))),
        false,
    );
    let split = LogicalStreamType::new_stream(s).split();
    assert_eq!(split.streams.len(), 1);
    assert!(split.streams[0].path.is_empty());
}

#[test]
fn a_stream_without_data_user_data_or_keep_is_null() {
    let s = stream_of(LogicalStreamType::new_null(), "1", 0, Synchronicity::Sync, Direction::Forward);
    assert!(LogicalStreamType::new_stream(s).is_null());
    let u = Stream::new(
        LogicalStreamType::new_null(),
        PositiveReal::one(),
        0,
        Synchronicity::Sync,
        Complexity::new_major(1),
        Direction::Forward,
        Some(Box::new(bits(1))),
        false,
    );
    assert!(!LogicalStreamType::new_stream(u).is_null());
}

#[test]
fn new_group_lets_a_repeated_name_take_the_earlier_place() {
    let g = LogicalStreamType::new_group(vec![(name("a"), bits(1)), (name("b"), bits(2)), (name("a"), bits(3))]);
    let expected = LogicalStreamType::try_new_group(vec![(name("a"), bits(3)), (name("b"), bits(2))]).unwrap();
    assert!(g.same(&expected));
    let u = LogicalStreamType::new_union(vec![(name("x"), bits(1))]);
    assert!(u.same(&LogicalStreamType::try_new_union(vec![(name("x"), bits(1))]).unwrap()));
    assert!(LogicalStreamType::new_bits(4).same(&bits(4)));
}

#[test]
fn throughputs_compare_by_the_number_they_denote() {
    let p = |t: &str| PositiveReal::try_new(t).unwrap();
    assert!(p("1").same(&p("1.0")));
    assert!(p("1").same(&p("1.")));
    assert!(p("1.50").same(&p("1.5")));
    assert!(p("0.5").same(&p(".5")));
    assert!(p("25").same(&p("2.5e1")));
    assert!(p("2.5").same(&p("250e-2")));
    assert!(p("+3").same(&p("3")));
    assert!(p("1e100000000000000000000000000000000000000").same(&p("10e99999999999999999999999999999999999999")));
    assert!(!p("1e100000000000000000000000000000000000000").same(&p("1e99999999999999999999999999999999999999")));
    assert!(!p("1.5").same(&p("1.05")));
    assert!(!p("2").same(&p("20")));
    assert_eq!(p("1"), p("1.0"));
    assert_ne!(p("1"), p("2"));
    let a = LogicalStreamType::new_stream(stream_of(bits(1), "1", 0, Synchronicity::Sync, Direction::Forward));
    let b = LogicalStreamType::new_stream(stream_of(bits(1), "1.0", 0, Synchronicity::Sync, Direction::Forward));
    assert!(a.same(&b));
    assert!(a.compatible(&b));
    assert_eq!(a, b);
}
