use cliargs::errors::InvalidOption;
use cliargs::opt_attr::parse_defaults;
use cliargs::validators::{NumberKind, Validator};
use cliargs::{Cmd, OptCfg, OptStore};
use std::str::FromStr;

// The default values that the `cfg` attribute text gives after its first `=`, as an option
// store reads them: the text is split into names and defaults, and the defaults are parsed by
// `parse_defaults`.
fn defaults_of(cfg: &str) -> Option<Vec<String>> {
    let mut attr_map: Vec<(String, String)> = Vec::new();
    match cfg.split_once('=') {
        Some((lhs, rhs)) => {
            attr_map.push(("names".to_string(), lhs.to_string()));
            attr_map.push(("defaults".to_string(), rhs.to_string()));
        }
        None => attr_map.push(("names".to_string(), cfg.to_string())),
    }
    parse_defaults(&attr_map)
}

fn first_text(cfg: &str) -> String {
    match defaults_of(cfg) {
        Some(v) if !v.is_empty() => v[0].clone(),
        _ => String::new(),
    }
}

fn all_texts(cfg: &str) -> Vec<String> {
    defaults_of(cfg).unwrap_or_default()
}

fn opt_text(cfg: &str) -> Option<String> {
    match defaults_of(cfg) {
        Some(v) if !v.is_empty() => Some(v[0].clone()),
        _ => None,
    }
}

fn first_number<T: FromStr + Default>(cfg: &str) -> T {
    match defaults_of(cfg) {
        Some(v) if !v.is_empty() => v[0].parse::<T>().ok().unwrap(),
        _ => T::default(),
    }
}

fn all_numbers<T: FromStr>(cfg: &str) -> Vec<T> {
    defaults_of(cfg)
        .unwrap_or_default()
        .iter()
        .map(|s| s.parse::<T>().ok().unwrap())
        .collect()
}

fn opt_number<T: FromStr>(cfg: &str) -> Option<T> {
    match defaults_of(cfg) {
        Some(v) if !v.is_empty() => Some(v[0].parse::<T>().ok().unwrap()),
        _ => None,
    }
}

#[allow(dead_code)]
struct WithAttrOptions {
    b_val: bool,
    s_val: String,
    i8_val: i8,
    i16_val: i16,
    i32_val: i32,
    i64_val: i64,
    i128_val: i128,
    u8_val: u8,
    u16_val: u16,
    u32_val: u32,
    u64_val: u64,
    u128_val: u128,
    f32_val: f32,
    f64_val: f64,
    s_arr: Vec<String>,
    i8_arr: Vec<i8>,
    i16_arr: Vec<i16>,
    i32_arr: Vec<i32>,
    i64_arr: Vec<i64>,
    i128_arr: Vec<i128>,
    u8_arr: Vec<u8>,
    u16_arr: Vec<u16>,
    u32_arr: Vec<u32>,
    u64_arr: Vec<u64>,
    u128_arr: Vec<u128>,
    f32_arr: Vec<f32>,
    f64_arr: Vec<f64>,
    s_opt: Option<String>,
    i8_opt: Option<i8>,
    i16_opt: Option<i16>,
    i32_opt: Option<i32>,
    i64_opt: Option<i64>,
    i128_opt: Option<i128>,
    u8_opt: Option<u8>,
    u16_opt: Option<u16>,
    u32_opt: Option<u32>,
    u64_opt: Option<u64>,
    u128_opt: Option<u128>,
    f32_opt: Option<f32>,
    f64_opt: Option<f64>,
}

impl WithAttrOptions {
    fn with_defaults() -> WithAttrOptions {
        WithAttrOptions {
            b_val: false,
            s_val: first_text("s,sss=ABC"),
            i8_val: first_number::<i8>("i8=-12"),
            i16_val: first_number::<i16>("i16=-123"),
            i32_val: first_number::<i32>("i32=-234"),
            i64_val: first_number::<i64>("i64=-345"),
            i128_val: first_number::<i128>("i128=-456"),
            u8_val: first_number::<u8>("u8=123"),
            u16_val: first_number::<u16>("u16=234"),
            u32_val: first_number::<u32>("u32=345"),
            u64_val: first_number::<u64>("u64=456"),
            u128_val: first_number::<u128>("u128=567"),
            f32_val: first_number::<f32>("f32=0.678"),
            f64_val: first_number::<f64>("f64=7.89"),
            s_arr: all_texts("ss=[A,B,C]"),
            i8_arr: all_numbers::<i8>("ii8=[-1,2,-3]"),
            i16_arr: all_numbers::<i16>("ii16=[2,-3,4]"),
            i32_arr: all_numbers::<i32>("ii32=[-3,4,-5]"),
            i64_arr: all_numbers::<i64>("ii64=[4,-5,6]"),
            i128_arr: all_numbers::<i128>("ii128=[-5,6,-7]"),
            u8_arr: all_numbers::<u8>("uu8=[1,2,3]"),
            u16_arr: all_numbers::<u16>("uu16=[2,3,4]"),
            u32_arr: all_numbers::<u32>("uu32=[3,4,5]"),
            u64_arr: all_numbers::<u64>("uu64=[4,5,6]"),
            u128_arr: all_numbers::<u128>("uu128=[5,6,7]"),
            f32_arr: all_numbers::<f32>("ff32=[0.6,0.7]"),
            f64_arr: all_numbers::<f64>("ff64=[0.7,0.8]"),
            s_opt: opt_text("=ABC"),
            i8_opt: opt_number::<i8>("=-12"),
            i16_opt: opt_number::<i16>("=-234"),
            i32_opt: opt_number::<i32>("=-345"),
            i64_opt: opt_number::<i64>("=-456"),
            i128_opt: opt_number::<i128>("=-567"),
            u8_opt: opt_number::<u8>("=123"),
            u16_opt: opt_number::<u16>("=234"),
            u32_opt: opt_number::<u32>("=345"),
            u64_opt: opt_number::<u64>("=456"),
            u128_opt: opt_number::<u128>("=567"),
            f32_opt: opt_number::<f32>("=0.1"),
            f64_opt: opt_number::<f64>("=1.2"),
        }
    }
}

// The option arguments stored under `key`, if any.
fn stored<'a>(m: &'a [(String, Vec<String>)], key: &str) -> Option<&'a Vec<String>> {
    m.iter().find(|(k, _)| k == key).map(|(_, v)| v)
}

fn arg_error(key: &str, arg: &str, details: String) -> InvalidOption {
    InvalidOption::OptionArgIsInvalid {
        store_key: key.to_string(),
        option: key.to_string(),
        opt_arg: arg.to_string(),
        details,
    }
}

fn set_first<T: FromStr>(m: &[(String, Vec<String>)], key: &str, field: &mut T) -> Result<(), InvalidOption>
where
    T::Err: std::fmt::Display,
{
    if let Some(v) = stored(m, key) {
        if let Some(s) = v.first() {
            *field = s.parse::<T>().map_err(|e| arg_error(key, s, e.to_string()))?;
        }
    }
    Ok(())
}

fn set_opt<T: FromStr>(m: &[(String, Vec<String>)], key: &str, field: &mut Option<T>) -> Result<(), InvalidOption>
where
    T::Err: std::fmt::Display,
{
    if let Some(v) = stored(m, key) {
        if let Some(s) = v.first() {
            *field = Some(s.parse::<T>().map_err(|e| arg_error(key, s, e.to_string()))?);
        }
    }
    Ok(())
}

fn set_all<T: FromStr>(m: &[(String, Vec<String>)], key: &str, field: &mut Vec<T>) -> Result<(), InvalidOption>
where
    T::Err: std::fmt::Display,
{
    if let Some(v) = stored(m, key) {
        let mut vals = Vec::new();
        for s in v {
            vals.push(s.parse::<T>().map_err(|e| arg_error(key, s, e.to_string()))?);
        }
        *field = vals;
    }
    Ok(())
}

// The configuration of a field of an option store: its store key is the field name, and its
// only option name is given by the `cfg` attribute.
fn field_cfg(key: &str, name: &str, has_arg: bool, is_array: bool, validator: Validator) -> OptCfg {
    OptCfg {
        store_key: key.to_string(),
        names: vec![name.to_string()],
        has_arg,
        is_array,
        defaults: None,
        desc: String::new(),
        arg_in_help: String::new(),
        validator,
    }
}

#[derive(Debug, Default)]
struct MyOptions {
    b_val: bool,
    s_val: String,
    i8_val: i8,
    i16_val: i16,
    i32_val: i32,
    i64_val: i64,
    i128_val: i128,
    u8_val: u8,
    u16_val: u16,
    u32_val: u32,
    u64_val: u64,
    u128_val: u128,
    f32_val: f32,
    f64_val: f64,
    s_arr: Vec<String>,
    i8_arr: Vec<i8>,
    i16_arr: Vec<i16>,
    i32_arr: Vec<i32>,
    i64_arr: Vec<i64>,
    i128_arr: Vec<i128>,
    u8_arr: Vec<u8>,
    u16_arr: Vec<u16>,
    u32_arr: Vec<u32>,
    u64_arr: Vec<u64>,
    u128_arr: Vec<u128>,
    f32_arr: Vec<f32>,
    f64_arr: Vec<f64>,
    s_opt: Option<String>,
    i8_opt: Option<i8>,
    i16_opt: Option<i16>,
    i32_opt: Option<i32>,
    i64_opt: Option<i64>,
    i128_opt: Option<i128>,
    u8_opt: Option<u8>,
    u16_opt: Option<u16>,
    u32_opt: Option<u32>,
    u64_opt: Option<u64>,
    u128_opt: Option<u128>,
    f32_opt: Option<f32>,
    f64_opt: Option<f64>,
}

impl MyOptions {
    fn with_defaults() -> MyOptions {
        MyOptions::default()
    }
}

impl OptStore for MyOptions {
    fn make_opt_cfgs(&self) -> Vec<OptCfg> {
        vec![
            field_cfg("b_val", "b-val", false, false, Validator::Accept),
            field_cfg("s_val", "s-val", true, false, Validator::Accept),
            field_cfg("i8_val", "i8-val", true, false, Validator::Number(NumberKind::I8)),
            field_cfg("i16_val", "i16-val", true, false, Validator::Number(NumberKind::I16)),
            field_cfg("i32_val", "i32-val", true, false, Validator::Number(NumberKind::I32)),
            field_cfg("i64_val", "i64-val", true, false, Validator::Number(NumberKind::I64)),
            field_cfg("i128_val", "i128-val", true, false, Validator::Number(NumberKind::I128)),
            field_cfg("u8_val", "u8-val", true, false, Validator::Number(NumberKind::U8)),
            field_cfg("u16_val", "u16-val", true, false, Validator::Number(NumberKind::U16)),
            field_cfg("u32_val", "u32-val", true, false, Validator::Number(NumberKind::U32)),
            field_cfg("u64_val", "u64-val", true, false, Validator::Number(NumberKind::U64)),
            field_cfg("u128_val", "u128-val", true, false, Validator::Number(NumberKind::U128)),
            field_cfg("f32_val", "f32-val", true, false, Validator::Accept),
            field_cfg("f64_val", "f64-val", true, false, Validator::Accept),
            field_cfg("s_arr", "s-arr", true, true, Validator::Accept),
            field_cfg("i8_arr", "i8-arr", true, true, Validator::Number(NumberKind::I8)),
            field_cfg("i16_arr", "i16-arr", true, true, Validator::Number(NumberKind::I16)),
            field_cfg("i32_arr", "i32-arr", true, true, Validator::Number(NumberKind::I32)),
            field_cfg("i64_arr", "i64-arr", true, true, Validator::Number(NumberKind::I64)),
            field_cfg("i128_arr", "i128-arr", true, true, Validator::Number(NumberKind::I128)),
            field_cfg("u8_arr", "u8-arr", true, true, Validator::Number(NumberKind::U8)),
            field_cfg("u16_arr", "u16-arr", true, true, Validator::Number(NumberKind::U16)),
            field_cfg("u32_arr", "u32-arr", true, true, Validator::Number(NumberKind::U32)),
            field_cfg("u64_arr", "u64-arr", true, true, Validator::Number(NumberKind::U64)),
            field_cfg("u128_arr", "u128-arr", true, true, Validator::Number(NumberKind::U128)),
            field_cfg("f32_arr", "f32-arr", true, true, Validator::Accept),
            field_cfg("f64_arr", "f64-arr", true, true, Validator::Accept),
            field_cfg("s_opt", "s-opt", true, false, Validator::Accept),
            field_cfg("i8_opt", "i8-opt", true, false, Validator::Number(NumberKind::I8)),
            field_cfg("i16_opt", "i16-opt", true, false, Validator::Number(NumberKind::I16)),
            field_cfg("i32_opt", "i32-opt", true, false, Validator::Number(NumberKind::I32)),
            field_cfg("i64_opt", "i64-opt", true, false, Validator::Number(NumberKind::I64)),
            field_cfg("i128_opt", "i128-opt", true, false, Validator::Number(NumberKind::I128)),
            field_cfg("u8_opt", "u8-opt", true, false, Validator::Number(NumberKind::U8)),
            field_cfg("u16_opt", "u16-opt", true, false, Validator::Number(NumberKind::U16)),
            field_cfg("u32_opt", "u32-opt", true, false, Validator::Number(NumberKind::U32)),
            field_cfg("u64_opt", "u64-opt", true, false, Validator::Number(NumberKind::U64)),
            field_cfg("u128_opt", "u128-opt", true, false, Validator::Number(NumberKind::U128)),
            field_cfg("f32_opt", "f32-opt", true, false, Validator::Accept),
            field_cfg("f64_opt", "f64-opt", true, false, Validator::Accept),
        ]
    }

    fn set_field_values(&mut self, m: &[(String, Vec<String>)]) -> Result<(), InvalidOption> {
        self.b_val = stored(m, "b_val").is_some();
        set_first(m, "s_val", &mut self.s_val)?;
        set_first(m, "i8_val", &mut self.i8_val)?;
        set_first(m, "i16_val", &mut self.i16_val)?;
        set_first(m, "i32_val", &mut self.i32_val)?;
        set_first(m, "i64_val", &mut self.i64_val)?;
        set_first(m, "i128_val", &mut self.i128_val)?;
        set_first(m, "u8_val", &mut self.u8_val)?;
        set_first(m, "u16_val", &mut self.u16_val)?;
        set_first(m, "u32_val", &mut self.u32_val)?;
        set_first(m, "u64_val", &mut self.u64_val)?;
        set_first(m, "u128_val", &mut self.u128_val)?;
        set_first(m, "f32_val", &mut self.f32_val)?;
        set_first(m, "f64_val", &mut self.f64_val)?;
        set_all(m, "s_arr", &mut self.s_arr)?;
        set_all(m, "i8_arr", &mut self.i8_arr)?;
        set_all(m, "i16_arr", &mut self.i16_arr)?;
        set_all(m, "i32_arr", &mut self.i32_arr)?;
        set_all(m, "i64_arr", &mut self.i64_arr)?;
        set_all(m, "i128_arr", &mut self.i128_arr)?;
        set_all(m, "u8_arr", &mut self.u8_arr)?;
        set_all(m, "u16_arr", &mut self.u16_arr)?;
        set_all(m, "u32_arr", &mut self.u32_arr)?;
        set_all(m, "u64_arr", &mut self.u64_arr)?;
        set_all(m, "u128_arr", &mut self.u128_arr)?;
        set_all(m, "f32_arr", &mut self.f32_arr)?;
        set_all(m, "f64_arr", &mut self.f64_arr)?;
        set_opt(m, "s_opt", &mut self.s_opt)?;
        set_opt(m, "i8_opt", &mut self.i8_opt)?;
        set_opt(m, "i16_opt", &mut self.i16_opt)?;
        set_opt(m, "i32_opt", &mut self.i32_opt)?;
        set_opt(m, "i64_opt", &mut self.i64_opt)?;
        set_opt(m, "i128_opt", &mut self.i128_opt)?;
        set_opt(m, "u8_opt", &mut self.u8_opt)?;
        set_opt(m, "u16_opt", &mut self.u16_opt)?;
        set_opt(m, "u32_opt", &mut self.u32_opt)?;
        set_opt(m, "u64_opt", &mut self.u64_opt)?;
        set_opt(m, "u128_opt", &mut self.u128_opt)?;
        set_opt(m, "f32_opt", &mut self.f32_opt)?;
        set_opt(m, "f64_opt", &mut self.f64_opt)?;
        Ok(())
    }
}

#[test]
fn parse_for_test_create_instance_with_defaults() {
    let store = WithAttrOptions::with_defaults();
    assert_eq!(store.b_val, false);
    assert_eq!(store.s_val, "ABC".to_string());
    assert_eq!(store.i8_val, -12);
    assert_eq!(store.i16_val, -123);
    assert_eq!(store.i32_val, -234);
    assert_eq!(store.i64_val, -345);
    assert_eq!(store.i128_val, -456);
    assert_eq!(store.u8_val, 123);
    assert_eq!(store.u16_val, 234);
    assert_eq!(store.u32_val, 345);
    assert_eq!(store.u64_val, 456);
    assert_eq!(store.u128_val, 567);
    assert_eq!(store.f32_val, 0.678);
    assert_eq!(store.f64_val, 7.89);
    assert_eq!(
        store.s_arr,
        vec!["A".to_string(), "B".to_string(), "C".to_string()]
    );
    assert_eq!(store.i8_arr, vec![-1, 2, -3]);
    assert_eq!(store.i16_arr, vec![2, -3, 4]);
    assert_eq!(store.i32_arr, vec![-3, 4, -5]);
    assert_eq!(store.i64_arr, vec![4, -5, 6]);
    assert_eq!(store.i128_arr, vec![-5, 6, -7]);
    assert_eq!(store.u8_arr, vec![1, 2, 3]);
    assert_eq!(store.u16_arr, vec![2, 3, 4]);
    assert_eq!(store.u32_arr, vec![3, 4, 5]);
    assert_eq!(store.u64_arr, vec![4, 5, 6]);
    assert_eq!(store.u128_arr, vec![5, 6, 7]);
    assert_eq!(store.f32_arr, vec![0.6, 0.7]);
    assert_eq!(store.f64_arr, vec![0.7, 0.8]);
    assert_eq!(store.s_opt, Some("ABC".to_string()));
    assert_eq!(store.i8_opt, Some(-12));
    assert_eq!(store.i16_opt, Some(-234));
    assert_eq!(store.i32_opt, Some(-345));
    assert_eq!(store.i64_opt, Some(-456));
    assert_eq!(store.i128_opt, Some(-567));
    assert_eq!(store.u8_opt, Some(123));
    assert_eq!(store.u16_opt, Some(234));
    assert_eq!(store.u32_opt, Some(345));
    assert_eq!(store.u64_opt, Some(456));
    assert_eq!(store.u128_opt, Some(567));
    assert_eq!(store.f32_opt, Some(0.1));
    assert_eq!(store.f64_opt, Some(1.2));
}

#[test]
fn test_parse_for_my_options() {
    let mut store = MyOptions::with_defaults();
    let mut cmd = Cmd::with_strings(vec![
        "/path/to/command".to_string(),
        "--b-val".to_string(),
        "--s-val".to_string(),
        "abcd".to_string(),
        "--i8-val=1".to_string(),
        "--i16-val=-12".to_string(),
        "--i32-val=123".to_string(),
        "--i64-val=-1234".to_string(),
        "--i128-val=12345".to_string(),
        "--u8-val=1".to_string(),
        "--u16-val=12".to_string(),
        "--u32-val=123".to_string(),
        "--u64-val=1234".to_string(),
        "--u128-val=12345".to_string(),
        "--f32-val=1.23".to_string(),
        "--f64-val=-4.56".to_string(),
        "--s-arr=a".to_string(),
        "--s-arr".to_string(),
        "b".to_string(),
        "--s-arr=c".to_string(),
        "--i8-arr=-1".to_string(),
        "--i8-arr=-2".to_string(),
        "--i16-arr=-1".to_string(),
        "--i16-arr=-2".to_string(),
        "--i32-arr=-1".to_string(),
        "--i32-arr=-2".to_string(),
        "--i64-arr=-1".to_string(),
        "--i64-arr=-2".to_string(),
        "--i128-arr=-1".to_string(),
        "--i128-arr=-2".to_string(),
        "--u8-arr=3".to_string(),
        "--u8-arr=4".to_string(),
        "--u16-arr=3".to_string(),
        "--u16-arr=4".to_string(),
        "--u32-arr=3".to_string(),
        "--u32-arr=4".to_string(),
        "--u64-arr=3".to_string(),
        "--u64-arr=4".to_string(),
        "--u128-arr=3".to_string(),
        "--u128-arr=4".to_string(),
        "--f32-arr=0.1".to_string(),
        "--f32-arr=-0.2".to_string(),
        "--f64-arr=-0.3".to_string(),
        "--f64-arr=0.4".to_string(),
        "--s-opt=aaa".to_string(),
        "--i8-opt=-1".to_string(),
        "--i16-opt=-2".to_string(),
        "--i32-opt=-3".to_string(),
        "--i64-opt=-4".to_string(),
        "--i128-opt=-5".to_string(),
        "--u8-opt=1".to_string(),
        "--u16-opt=2".to_string(),
        "--u32-opt=3".to_string(),
        "--u64-opt=4".to_string(),
        "--u128-opt=5".to_string(),
        "--f32-opt=-0.1".to_string(),
        "--f64-opt=2.3".to_string(),
    ]);

    assert_eq!(cmd.parse_for(&mut store), Ok(()));

    assert_eq!(store.b_val, true);
    assert_eq!(store.s_val, "abcd".to_string());
    assert_eq!(store.i8_val, 1);
    assert_eq!(store.i16_val, -12);
    assert_eq!(store.i32_val, 123);
    assert_eq!(store.i64_val, -1234);
    assert_eq!(store.i128_val, 12345);
    assert_eq!(store.u8_val, 1);
    assert_eq!(store.u16_val, 12);
    assert_eq!(store.u32_val, 123);
    assert_eq!(store.u64_val, 1234);
    assert_eq!(store.u128_val, 12345);
    assert_eq!(store.f32_val, 1.23);
    assert_eq!(store.f64_val, -4.56);
    assert_eq!(
        store.s_arr,
        vec!["a".to_string(), "b".to_string(), "c".to_string(),]
    );
    assert_eq!(store.i8_arr, vec![-1, -2]);
    assert_eq!(store.i16_arr, vec![-1, -2]);
    assert_eq!(store.i32_arr, vec![-1, -2]);
    assert_eq!(store.i64_arr, vec![-1, -2]);
    assert_eq!(store.i128_arr, vec![-1, -2]);
    assert_eq!(store.u8_arr, vec![3, 4]);
    assert_eq!(store.u16_arr, vec![3, 4]);
    assert_eq!(store.u32_arr, vec![3, 4]);
    assert_eq!(store.u64_arr, vec![3, 4]);
    assert_eq!(store.u128_arr, vec![3, 4]);
    assert_eq!(store.f32_arr, vec![0.1, -0.2]);
    assert_eq!(store.f64_arr, vec![-0.3, 0.4]);
    assert_eq!(store.s_opt, Some("aaa".to_string()));
    assert_eq!(store.i8_opt, Some(-1));
    assert_eq!(store.i16_opt, Some(-2));
    assert_eq!(store.i32_opt, Some(-3));
    assert_eq!(store.i64_opt, Some(-4));
    assert_eq!(store.i128_opt, Some(-5));
    assert_eq!(store.u8_opt, Some(1));
    assert_eq!(store.u16_opt, Some(2));
    assert_eq!(store.u32_opt, Some(3));
    assert_eq!(store.u64_opt, Some(4));
    assert_eq!(store.u128_opt, Some(5));
    assert_eq!(store.f32_opt, Some(-0.1));
    assert_eq!(store.f64_opt, Some(2.3));
}
