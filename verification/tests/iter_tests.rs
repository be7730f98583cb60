use common::iter::{
    ChunkedIterator, ExactSizeWrapper, OpenBorderWindowIterator, State, SurroundingFilterIterator,
};

#[test]
fn chunked_test() {
    let expected: Vec<Vec<i32>> = vec![0..6, 4..10, 8..14, 12..15]
        .into_iter()
        .map(|r| r.collect())
        .collect();
    let mut is = ChunkedIterator::new((0..15).collect(), 6, 4);
    assert_eq!(expected.len(), is.len());

    let mut collected: Vec<Vec<i32>> = Vec::new();
    while let Some(chunk) = is.next() {
        collected.push(chunk);
    }
    assert!(collected.eq(&expected), "expected {expected:?} but was {collected:?}");
}

#[test]
fn surrounding_filter_test() {
    let mut iter = SurroundingFilterIterator::new((0..4).collect(), |l: &Option<i32>, _e: &i32, a: &Option<i32>| {
        !((*l).is_some_and(|it| it == 2) || (*a).is_some_and(|it| it == 2))
    });
    let mut is: Vec<i32> = Vec::new();
    while let Some(v) = iter.next() {
        is.push(v);
    }
    let expected = vec![0, 2];
    assert!(is.eq(&expected), "expected {expected:?} but got {is:?}");
}

#[test]
fn open_border_iter() {
    let mut iter = OpenBorderWindowIterator::new(vec![1, 2, 3]);
    assert_eq!(iter.len(), 4);
    assert_eq!(Some(State::Start(1)), iter.next());
    assert_eq!(Some(State::Middle(1, 2)), iter.next());
    assert_eq!(Some(State::Middle(2, 3)), iter.next());
    assert_eq!(Some(State::End(3)), iter.next());
    assert_eq!(None, iter.next());
}

#[test]
fn exact_size() {
    let mut iter = ExactSizeWrapper::new((0..10).collect(), 10);

    assert_eq!(iter.len(), 10);

    assert_eq!(iter.next(), Some(0));
    assert_eq!(iter.len(), 9);
    assert_eq!(iter.next_back(), Some(9));
    assert_eq!(iter.len(), 8);

    assert_eq!(iter.next(), Some(1));
    assert_eq!(iter.len(), 7);
    assert_eq!(iter.next_back(), Some(8));
    assert_eq!(iter.len(), 6);

    let mut rest: Vec<i32> = Vec::new();
    while let Some(v) = iter.next() {
        rest.push(v);
    }
    let expected: Vec<i32> = (2..8).collect();
    assert_eq!(rest, expected);
}

#[test]
fn reduce_early_return() {
    assert_eq!(
        common::iter::reduce_early_return(vec![1, 2, 3, 0, 4, 5], 1, |acc, it| {
            assert!(it < 4, "didn't early return");
            if it != 0 { Ok(acc * it) } else { Err(0) }
        }),
        Err(0)
    );
    assert_eq!(
        common::iter::reduce_early_return(vec![1, 2, 3, 4, 5], 1, |acc, it| {
            if it != 0 { Ok(acc * it) } else { Err(0) }
        }),
        Ok(120)
    );
}

#[test]
fn state_classification() {
    assert_eq!(None, State::<i32>::new(None, None));
    assert_eq!(Some(State::Start(7)), State::new(None, Some(7)));
    assert_eq!(Some(State::Middle(7, 8)), State::new(Some(7), Some(8)));
    assert_eq!(Some(State::End(7)), State::new(Some(7), None));
}
