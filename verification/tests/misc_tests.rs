use common::boo::{Boo, Mob, Moo};
use common::chars::compare_char;
use common::collections::ArrayNPM;
use common::duration_ext::{Dur, duration_from_h_m_s_m};
use common::inputs::{Inputs, OutputLevel, Verbosity, parse_consent};
use common::io_err::MoveError;
use common::vec_ext::push_return;

#[test]
fn is_none_or() {
    assert!(common::option_ext::is_none_or(Some(2), |x| x > 1));
    assert!(!common::option_ext::is_none_or(Some(0), |x| x > 1));
    assert!(common::option_ext::is_none_or(None::<usize>, |x| x > 1));
}

#[test]
fn find_or_push() {
    let mut data = vec![1, 2, 4];
    let element = common::vec_ext::find_or_push(&mut data, 0, |it| *it == 1);
    assert_eq!(1, *element, "get correct");
    *element = 7;
    assert!(data.iter().eq(&[7, 2, 4]), "first element got changed");
}

#[test]
fn find_or_push_non_exiting() {
    let mut data = vec![1, 2, 4];

    let element = common::vec_ext::find_or_push(&mut data, 0, |&it| it == 3);
    assert_eq!(0, *element, "get correct");
    *element = 8;
    assert!(data.iter().eq(&[1, 2, 4, 8]), "first element got changed");
}

#[test]
fn push_return_gives_the_new_slot() {
    let mut data = vec![1, 2];
    let element = push_return(&mut data, 9);
    assert_eq!(9, *element);
    *element = 3;
    assert_eq!(vec![1, 2, 3], data);
}

#[test]
fn boo_owned_and_borrowed() {
    assert_eq!(5, Boo::<i32>::Owned(5).cloned());
    let v = 6;
    assert_eq!(6, Boo::Borrowed(&v).cloned());
    assert_eq!(6, Boo::Borrowed(&v).copied());
    assert_eq!(6, *Boo::Borrowed(&v).as_ref());
    assert_eq!(7, Boo::Borrowed(&v).into_owned(|it| *it + 1));
}

#[test]
fn mob_variants() {
    let mut place = 3;
    assert_eq!(Some(3), Mob::BorrowedMut(&mut place).try_into_mut().map(|p| *p));
    assert_eq!(None, Mob::<i32>::Owned(3).try_into_mut());
    assert_eq!(3, Mob::Borrowed(&place).cloned());
    assert_eq!(3, Mob::BorrowedMut(&mut place).copied());

    let (taken, kept) = Mob::BorrowedMut(&mut place).take_keep_ref();
    assert_eq!(3, taken);
    let slot = kept.unwrap();
    assert_eq!(0, *slot);
    *slot = 11;
    assert_eq!(11, place);
}

#[test]
fn moo_variants() {
    let mut place = 4;
    let moo = Moo::from_with_value(Some(&mut place), 9);
    assert_eq!(9, moo.cloned());
    assert_eq!(9, place);

    let moo = Moo::<i32>::from_with_value(None, 9);
    assert_eq!(Some(9), moo.try_get_owned());

    assert_eq!(5, Moo::<i32>::Owned(5).expect_owned("owned"));
    let mut other = 2;
    let got = Moo::BorrowedMut(&mut other).expect_mut("borrowed");
    *got = 12;
    assert_eq!(12, other);

    assert_eq!(
        8,
        Moo::from_mob_cloned(Mob::<i32>::Owned(8)).expect_owned("stays owned")
    );
}

#[test]
fn duration_pieces() {
    let d = duration_from_h_m_s_m(2, 3, 4, 567);
    assert_eq!(2, d.hours());
    assert_eq!(3, d.minutes());
    assert_eq!(4, d.seconds());
    assert_eq!(567_000_000, d.nanos);

    let a = Dur { secs: 10, nanos: 200 };
    let b = Dur { secs: 9, nanos: 800 };
    let diff = a.abs_diff(b);
    assert_eq!(0, diff.secs);
    assert_eq!(999_999_400, diff.nanos);
    assert_eq!(diff, b.abs_diff(a));
    assert!(a.is_near_to(b, Dur { secs: 1, nanos: 0 }));
    assert!(!a.is_near_to(b, Dur { secs: 0, nanos: 100 }));
}

#[test]
fn consent_words() {
    assert_eq!(Some(true), parse_consent("y"));
    assert_eq!(Some(true), parse_consent("yes"));
    assert_eq!(Some(true), parse_consent("j"));
    assert_eq!(Some(true), parse_consent("ja"));
    assert_eq!(Some(false), parse_consent("n"));
    assert_eq!(Some(false), parse_consent("no"));
    assert_eq!(Some(false), parse_consent("nein"));
    assert_eq!(None, parse_consent("maybe"));
    assert_eq!(None, parse_consent(""));
}

#[test]
fn input_presets() {
    let i = Inputs::new(Some(true), None);
    assert_eq!(Some(true), i.preset_consent());
    assert_eq!(3, i.trys);
    let i = Inputs::new(None, Some(5));
    assert_eq!(None, i.preset_consent());
    assert_eq!(5, i.trys);
}

#[test]
fn verbosity_mapping() {
    let level = |debug, verbose, warn, silent| OutputLevel { debug, verbose, warn, silent }.verbosity();
    assert_eq!(Verbosity::Error, level(true, true, true, true));
    assert_eq!(Verbosity::Trace, level(true, true, true, false));
    assert_eq!(Verbosity::Debug, level(true, false, true, false));
    assert_eq!(Verbosity::Warn, level(false, false, true, false));
    assert_eq!(Verbosity::Info, level(false, false, false, false));
}

#[test]
fn compare_char_cases() {
    assert!(compare_char('a', 'a', false));
    assert!(!compare_char('a', 'A', false));
    assert!(compare_char('a', 'A', true));
    assert!(compare_char('Z', 'z', true));
    assert!(!compare_char('a', 'b', true));
}

#[test]
fn array_npm_fill_and_update() {
    let mut data = ArrayNPM::<3, 3, u8>::from_fn(|it| it as u8);
    assert_eq!(6, data.len());
    for i in 0..6 {
        assert_eq!(i as u8, *data.index(i));
        *data.index_mut(i) += 10;
    }
    assert_eq!(13, *data.index(3));
}

#[test]
fn move_error_kinds() {
    assert!(MoveError::FileNotFound.is_file_not_found());
    assert!(!MoveError::FileNotFound.is_target_not_found());
    assert!(MoveError::TargetNotFound.is_target_not_found());
}

#[test]
fn duration_display_text() {
    let d = duration_from_h_m_s_m(0, 3, 4, 567);
    assert_eq!("3:04.567", d.into_display().to_text());
    let d = duration_from_h_m_s_m(0, 0, 0, 7);
    assert_eq!("0:00.007", d.into_display().to_text());
    let d = duration_from_h_m_s_m(0, 12, 34, 56);
    assert_eq!("12:34.056", d.into_display().to_text());
}
