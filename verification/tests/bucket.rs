use parmap::bucket::Bucket;
use parmap::source::VecSource;

#[derive(Debug)]
enum TestEnum {
    One,
    Two,
    Three,
}

fn bucket_func(x: &TestEnum) -> usize {
    match x {
        TestEnum::One => 0,
        TestEnum::Two => 1,
        TestEnum::Three => 2,
    }
}

#[test]
fn test_bucket_arr() {
    let items = vec![TestEnum::One, TestEnum::Two, TestEnum::Three];

    let refs: Vec<&TestEnum> = items.iter().collect();
    let buckets = VecSource::new(refs).bucket_arr::<_, 3>(|x: &&TestEnum| bucket_func(x));
    println!("{:?}", buckets);
    let buckets = VecSource::new(items).bucket_arr::<_, 3>(bucket_func);
    println!("{:?}", buckets);
}

#[test]
fn test_bucket_vec() {
    let items = vec![TestEnum::One, TestEnum::Two, TestEnum::Three];

    let refs: Vec<&TestEnum> = items.iter().collect();
    let buckets = VecSource::new(refs).bucket_vec(3, |x: &&TestEnum| bucket_func(x));
    println!("{:?}", buckets);
    let buckets = VecSource::new(items).bucket_vec(3, bucket_func);
    println!("{:?}", buckets);
}

#[test]
fn test_bucket_result() {
    let items = vec![Ok("One"), Err("Two"), Ok("Three")];

    let (oks, errs) = VecSource::new(items).bucket_result();
    println!("{:?} {:?}", oks, errs);
}

#[test]
fn test_bucket_vec_exact() {
    let items = vec![1u32, 2, 3, 4, 5];
    let buckets = VecSource::new(items).bucket_vec(2, |x: &u32| (x % 2) as usize);
    assert_eq!(buckets, vec![vec![2u32, 4], vec![1u32, 3, 5]]);
}

#[test]
fn test_bucket_arr_exact() {
    let items = vec![10u32, 25, 31, 47];
    let buckets = VecSource::new(items).bucket_arr::<_, 4>(|x: &u32| (x % 4) as usize);
    assert_eq!(buckets.len(), 4);
    assert_eq!(buckets[0], vec![]);
    assert_eq!(buckets[1], vec![25u32]);
    assert_eq!(buckets[2], vec![10u32]);
    assert_eq!(buckets[3], vec![31u32, 47]);
}

#[test]
fn test_bucket_result_exact() {
    let items: Vec<Result<&str, &str>> = vec![Ok("One"), Err("Two"), Ok("Three")];
    let (oks, errs) = VecSource::new(items).bucket_result();
    assert_eq!(oks, vec!["One", "Three"]);
    assert_eq!(errs, vec!["Two"]);
}

#[test]
fn test_bucket_empty() {
    let items: Vec<u32> = vec![];
    let buckets = VecSource::new(items).bucket_vec(3, |_x: &u32| 0);
    assert_eq!(buckets, vec![Vec::<u32>::new(), vec![], vec![]]);
}
