use jln::{JlnError, Parser};
use std::rc::Rc;

struct TError(bool);

impl JlnError for TError {
    fn is_fatal(&self) -> bool {
        self.0
    }

    fn eof() -> Self {
        TError(false)
    }

    fn aggregate(errors: Vec<Self>) -> Self {
        TError(errors.into_iter().any(|x| x.is_fatal()))
    }
}

/// An error that remembers which alternatives failed, to check the order of aggregation.
#[derive(Debug, PartialEq)]
struct Codes(Vec<u32>);

impl JlnError for Codes {
    fn is_fatal(&self) -> bool {
        false
    }

    fn eof() -> Self {
        Codes(vec![])
    }

    fn aggregate(errors: Vec<Self>) -> Self {
        Codes(errors.into_iter().flat_map(|c| c.0).collect())
    }
}

fn even(input: &mut Parser<usize>) -> Result<bool, ()> {
    if input.get()? % 2 == 0 {
        Ok(true)
    } else {
        Err(())
    }
}

fn odd(input: &mut Parser<usize>) -> Result<bool, ()> {
    if input.get()? % 2 == 1 {
        Ok(false)
    } else {
        Err(())
    }
}

fn even_or_cut(input: &mut Parser<usize>) -> Result<bool, TError> {
    if input.get()? % 2 == 0 {
        Ok(true)
    } else {
        Err(TError(true))
    }
}

fn odd_or_fail(input: &mut Parser<usize>) -> Result<bool, TError> {
    if input.get()? % 2 == 1 {
        Ok(false)
    } else {
        Err(TError(false))
    }
}

fn fail_one(input: &mut Parser<usize>) -> Result<bool, Codes> {
    input.get::<Codes>().map_err(|_| Codes(vec![9]))?;
    Err(Codes(vec![1]))
}

fn fail_two(input: &mut Parser<usize>) -> Result<bool, Codes> {
    input.get::<Codes>().map_err(|_| Codes(vec![9]))?;
    input.get::<Codes>().map_err(|_| Codes(vec![9]))?;
    Err(Codes(vec![2]))
}

fn take_two(input: &mut Parser<usize>) -> Result<usize, ()> {
    let a = *input.get()?;
    let b = *input.get()?;
    Ok(a + b)
}

#[test]
fn should_create_rc_parser_from_with_collect() {
    let input = vec![1, 2, 3];
    let mut buffer: Parser<usize> = input.into_iter().collect();

    let value = buffer.get::<()>().unwrap();

    assert_eq!(*value, 1);
    assert_eq!(buffer.index(), 1)
}

#[test]
fn should_create_rc_parser_from_rc_with_into() {
    let input: Rc<[usize]> = vec![1, 2, 3].into();
    let mut buffer: Parser<usize> = (&input).into();

    let value = buffer.get::<()>().unwrap();

    assert_eq!(*value, 1);
    assert_eq!(buffer.index(), 1)
}

#[test]
fn should_create_rc_parser_with_into() {
    let input = vec![1, 2, 3];
    let mut buffer: Parser<usize> = input.into();

    let value = buffer.get::<()>().unwrap();

    assert_eq!(*value, 1);
    assert_eq!(buffer.index(), 1)
}

#[test]
fn should_create_borrow_parser_with_into() {
    let input = vec![1, 2, 3];
    let mut buffer: Parser<usize> = (&input[..]).into();

    let value = buffer.get::<()>().unwrap();

    assert_eq!(*value, 1);
    assert_eq!(buffer.index(), 1)
}

#[test]
fn should_get() {
    let input = vec![1, 2, 3];
    let mut buffer = Parser::new(&input);

    let value = buffer.get::<()>().unwrap();

    assert_eq!(*value, 1);
    assert_eq!(buffer.index(), 1)
}

#[test]
fn should_peek() {
    let input = vec![1, 2, 3];
    let buffer = Parser::new(&input);

    let value = buffer.peek::<()>().unwrap();

    assert_eq!(*value, 1);
    assert_eq!(buffer.index(), 0);
}

#[test]
fn should_rollback() {
    let input = vec![1, 2, 3];
    let mut buffer = Parser::new(&input);

    let _ = buffer.with_rollback(|buffer| {
        buffer.get()?;
        Err::<usize, ()>(())
    });

    assert_eq!(buffer.index(), 0);
}

#[test]
fn should_indicate_end() {
    let input = vec![1, 2, 3];
    let mut buffer = Parser::new(&input);

    assert!(!buffer.end());
    buffer.get::<()>().unwrap();
    assert!(!buffer.end());
    buffer.get::<()>().unwrap();
    assert!(!buffer.end());
    buffer.get::<()>().unwrap();
    assert!(buffer.end());
}

#[test]
fn should_get_option() {
    let input = vec![1, 2, 3];
    let mut buffer = Parser::new(&input);

    let result = buffer.option(|_| Err::<usize, ()>(())).unwrap();
    assert!(result.is_none());
    assert_eq!(buffer.index(), 0);

    let result = buffer.option(|buffer| Ok::<usize, ()>(*buffer.get()?)).unwrap();
    assert!(matches!(result, Some(1)));
    assert_eq!(buffer.index(), 1);
}

#[test]
fn should_get_list() {
    let input = vec![1, 2, 3];
    let mut buffer = Parser::new(&input);

    let result = buffer.list(|buffer| Ok::<usize, ()>(*buffer.get()?)).unwrap();

    assert_eq!(result, vec![1, 2, 3]);
}

#[test]
fn should_get_or() {
    let input = vec![1, 2, 3];
    let mut buffer = Parser::new(&input);

    let result = buffer.list(|buffer| buffer.or([even, odd])).unwrap();

    assert_eq!(result, vec![false, true, false]);
}

#[test]
fn should_early_exit_or_on_fatal() {
    let input = vec![1, 2, 3];
    let mut buffer = Parser::new(&input);

    let result = buffer.or([even_or_cut, odd_or_fail]);

    assert!(result.is_err());
    assert!(result.unwrap_err().is_fatal());
}

#[test]
fn should_indicate_err_when_option_encounters_fatal() {
    let input = vec![1, 2, 3];
    let mut buffer = Parser::new(&input);

    let result: Result<Option<usize>, _> = buffer.option(|_input| Err(TError(true)));

    assert!(result.is_err());
    assert!(result.unwrap_err().is_fatal());
}

#[test]
fn should_indicate_err_when_list_encounters_fatal() {
    let input = vec![1, 2, 3];
    let mut buffer = Parser::new(&input);

    let result: Result<Vec<usize>, _> = buffer.list(|_input| Err(TError(true)));

    assert!(result.is_err());
    assert!(result.unwrap_err().is_fatal());
}

#[test]
fn peek_twice_gives_the_same_element_and_index() {
    let input = vec![1, 2, 3];
    let buffer = Parser::new(&input);

    assert_eq!(*buffer.peek::<()>().unwrap(), 1);
    assert_eq!(buffer.index(), 0);
    assert_eq!(*buffer.peek::<()>().unwrap(), 1);
    assert_eq!(buffer.index(), 0);
}

#[test]
fn peek_at_the_end_fails() {
    let input: Vec<usize> = vec![];
    let buffer = Parser::new(&input);

    assert!(buffer.peek::<TError>().is_err());
    assert!(!buffer.peek::<TError>().unwrap_err().is_fatal());
    assert_eq!(buffer.index(), 0);
}

#[test]
fn get_past_the_end_fails_and_keeps_the_index() {
    let input = vec![1, 2, 3];
    let mut buffer = Parser::new(&input);

    assert_eq!(*buffer.get::<()>().unwrap(), 1);
    assert_eq!(buffer.index(), 1);
    assert_eq!(*buffer.get::<()>().unwrap(), 2);
    assert_eq!(*buffer.get::<()>().unwrap(), 3);
    assert!(buffer.end());
    assert!(buffer.get::<TError>().is_err());
    assert_eq!(buffer.index(), 3);
}

#[test]
fn end_of_empty_input() {
    let input: Vec<u8> = vec![];
    let buffer = Parser::new(&input);

    assert!(buffer.end());
}

#[test]
fn rollback_keeps_the_index_from_any_start() {
    let input = vec![1, 2, 3];
    let mut buffer = Parser::new(&input);
    buffer.get::<()>().unwrap();
    buffer.get::<()>().unwrap();

    let result = buffer.with_rollback(|b| {
        b.get::<()>()?;
        b.get::<()>()?;
        Ok::<usize, ()>(0)
    });

    assert!(result.is_err());
    assert_eq!(buffer.index(), 2);
}

#[test]
fn rollback_on_empty_input() {
    let input: Vec<usize> = vec![];
    let mut buffer = Parser::new(&input);

    let result = buffer.with_rollback(|b| Ok::<usize, ()>(*b.get()?));

    assert!(result.is_err());
    assert_eq!(buffer.index(), 0);
}

#[test]
fn rollback_commits_on_success() {
    let input = vec![4, 5, 6];
    let mut buffer = Parser::new(&input);

    let result = buffer.with_rollback(take_two);

    assert_eq!(result, Ok(9));
    assert_eq!(buffer.index(), 2);
}

#[test]
fn option_advances_as_the_operation_does() {
    let input = vec![4, 5, 6];
    let mut buffer = Parser::new(&input);

    let result = buffer.option(take_two).unwrap();

    assert_eq!(result, Some(9));
    assert_eq!(buffer.index(), 2);

    let result = buffer.option(take_two).unwrap();

    assert_eq!(result, None);
    assert_eq!(buffer.index(), 2);
}

#[test]
fn option_keeps_the_index_on_fatal() {
    let input = vec![1, 2, 3];
    let mut buffer = Parser::new(&input);

    let result: Result<Option<usize>, _> = buffer.option(|b| {
        b.get::<TError>()?;
        Err(TError(true))
    });

    assert!(result.unwrap_err().is_fatal());
    assert_eq!(buffer.index(), 0);
}

#[test]
fn list_of_get_consumes_everything() {
    let input = vec![1, 2, 3];
    let mut buffer = Parser::new(&input);

    let result = buffer.list(|b| Ok::<usize, ()>(*b.get()?)).unwrap();

    assert_eq!(result, vec![1, 2, 3]);
    assert_eq!(buffer.index(), 3);
}

#[test]
fn list_of_failures_is_empty() {
    let input = vec![1, 2, 3];
    let mut buffer = Parser::new(&input);

    let result = buffer.list(|b| {
        b.get::<()>()?;
        Err::<usize, ()>(())
    });

    assert_eq!(result, Ok(vec![]));
    assert_eq!(buffer.index(), 0);
}

#[test]
fn list_stops_at_the_first_ordinary_failure() {
    let input = vec![4, 5, 6];
    let mut buffer = Parser::new(&input);

    let result = buffer.list(take_two).unwrap();

    assert_eq!(result, vec![9]);
    assert_eq!(buffer.index(), 2);
}

#[test]
fn list_with_alternatives_consumes_everything() {
    let input = vec![1, 2, 3];
    let mut buffer = Parser::new(&input);

    let result = buffer.list(|b| b.or([even, odd])).unwrap();

    assert_eq!(result, vec![false, true, false]);
    assert_eq!(buffer.index(), 3);
}

#[test]
fn or_on_fatal_first_keeps_the_index_and_skips_the_rest() {
    let input = vec![1, 2, 3];
    let mut buffer = Parser::new(&input);

    let result = buffer.or([even_or_cut, odd_or_fail]);

    assert!(result.unwrap_err().is_fatal());
    assert_eq!(buffer.index(), 0);
}

#[test]
fn or_tries_each_alternative_from_the_same_start() {
    let input = vec![1, 2, 3];
    let mut buffer = Parser::new(&input);

    let result = buffer.or([fail_two, fail_one]);

    assert_eq!(result, Err(Codes(vec![2, 1])));
    assert_eq!(buffer.index(), 0);
}

#[test]
fn or_aggregates_ordinary_errors_in_order() {
    let input = vec![1, 2, 3];
    let mut buffer = Parser::new(&input);

    let result = buffer.or([fail_one, fail_two]);

    assert_eq!(result, Err(Codes(vec![1, 2])));
    assert_eq!(buffer.index(), 0);
}

#[test]
fn or_commits_the_first_success() {
    let input = vec![2, 3];
    let mut buffer = Parser::new(&input);

    assert_eq!(buffer.or([odd, even]), Ok(true));
    assert_eq!(buffer.index(), 1);
    assert_eq!(buffer.or([even, odd]), Ok(false));
    assert_eq!(buffer.index(), 2);
}

#[test]
fn unit_error_is_ordinary() {
    assert!(!().is_fatal());
    assert!(!<() as JlnError>::eof().is_fatal());
    assert!(!<() as JlnError>::aggregate(vec![(), ()]).is_fatal());
}

#[test]
fn shared_input_is_not_copied() {
    let input: Rc<[usize]> = vec![1, 2, 3].into();
    let mut buffer: Parser<usize> = (&input).into();
    assert_eq!(Rc::strong_count(&input), 2);

    let result = buffer.with_rollback(|b| {
        assert_eq!(Rc::strong_count(&input), 3);
        Ok::<usize, ()>(*b.get()?)
    });

    assert_eq!(result, Ok(1));
    assert_eq!(Rc::strong_count(&input), 2);
    assert_eq!(buffer.index(), 1);
}

#[test]
fn owned_input_keeps_its_order() {
    let mut buffer: Parser<usize> = vec![7, 8, 9].into();

    let result = buffer.list(|b| Ok::<usize, ()>(*b.get()?)).unwrap();

    assert_eq!(result, vec![7, 8, 9]);
}

#[test]
fn collected_input_keeps_its_order() {
    let mut buffer: Parser<usize> = (1..4).map(|x| x * 10).collect();

    let result = buffer.list(|b| Ok::<usize, ()>(*b.get()?)).unwrap();

    assert_eq!(result, vec![10, 20, 30]);
}
