use gmon::display::{
    format_gpu_row, format_header, mem_str_width, padding, temp_style, Pad, StyleClass, DF,
};
use gmon::nv_gpu::{
    Clock, GPUInfo, MemUsage, PowerInfo, Processes, Temperature, Utilization, ValidValue, Value,
    GPU,
};

fn metric(v: i64, unit: Option<&str>) -> Value {
    Value { val: ValidValue::Int(v), unit: unit.map(|u| u.to_string()) }
}

fn na_metric() -> Value {
    Value { val: ValidValue::Unavailable, unit: None }
}

fn sample_gpu() -> GPU {
    GPU {
        id: "0".to_string(),
        product_name: "Test GPU".to_string(),
        uuid: "GPU-0000".to_string(),
        fan_speed: "N/A".to_string(),
        fb_memory_usage: MemUsage {
            total: metric(24576, Some("MiB")),
            used: metric(256, Some("MiB")),
            free: na_metric(),
        },
        bar1_memory_usage: MemUsage {
            total: na_metric(),
            used: na_metric(),
            free: na_metric(),
        },
        compute_mode: "Default".to_string(),
        utilization: Utilization {
            gpu: metric(87, Some("%")),
            memory: na_metric(),
            encoder: na_metric(),
            decoder: na_metric(),
        },
        temperature: Temperature {
            value: metric(45, Some("C")),
            max_threshold: na_metric(),
            slow_threshold: na_metric(),
            max_gpu_threshold: na_metric(),
            target_temperature: na_metric(),
            memory_temp: na_metric(),
            max_mem_threshold: na_metric(),
        },
        power_readings: PowerInfo {
            state: "P0".to_string(),
            management: "Supported".to_string(),
            draw: metric(215, Some("W")),
            limit: metric(250, Some("W")),
            default_limit: metric(250, Some("W")),
            enforced_limit: na_metric(),
            min_limit: na_metric(),
            max_limit: na_metric(),
        },
        clocks: Clock { graphics: na_metric(), sm: None, mem: None, video: None },
        processes: Processes { items: None },
    }
}

#[test]
fn cell_padding_fills_on_the_left() {
    let df = DF::new(false);
    let v = metric(7, None);
    assert_eq!(df.padding(&v, "", Some(""), 3, Pad::Left, None), "  7");
}

#[test]
fn cell_padding_uses_the_unit_when_no_suffix_is_given() {
    let df = DF::new(false);
    let v = metric(45, Some("C"));
    assert_eq!(df.padding(&v, "", None, 3, Pad::Left, None), "45C");
}

#[test]
fn unavailable_cell_shows_na() {
    let df = DF::new(false);
    assert_eq!(df.padding(&na_metric(), "", Some(""), 5, Pad::Left, None), "  N/A");
}

#[test]
fn sentinel_cell_shows_na() {
    let df = DF::new(false);
    let v = metric(-1, Some("W"));
    assert_eq!(df.padding(&v, "", Some(""), 5, Pad::Left, None), "  N/A");
}

#[test]
fn decimal_cell_shows_the_rounded_reading() {
    let df = DF::new(false);
    let v = gmon::nv_gpu::Value::parse("215.50 W").unwrap();
    assert_eq!(df.padding(&v, "", Some(""), 4, Pad::Left, None), " 216");
}

#[test]
fn free_padding_left_and_right() {
    assert_eq!(padding("ab".to_string(), Pad::Left, 5, Some('.')), "...ab");
    assert_eq!(padding("ab".to_string(), Pad::Right, 4, None), "ab  ");
    assert_eq!(padding("abcdef".to_string(), Pad::Left, 4, None), "abcdef");
}

#[test]
fn temperature_styles_follow_the_thresholds() {
    assert_eq!(temp_style(80), StyleClass::Red);
    assert_eq!(temp_style(60), StyleClass::Yellow);
    assert_eq!(temp_style(40), StyleClass::Green);
    assert_eq!(temp_style(20), StyleClass::Blue);
}

#[test]
fn try_style_honors_color_support() {
    assert_eq!(DF::new(false).try_style(StyleClass::Red), StyleClass::Plain);
    assert_eq!(DF::new(true).try_style(StyleClass::Red), StyleClass::Red);
}

#[test]
fn header_fills_between_the_columns() {
    assert_eq!(format_header("A", "B", 40), format!("A{}B", "  "));
    assert_eq!(format_header("A", "B", 10), "AB");
}

#[test]
fn memory_width_follows_the_first_device() {
    let info = GPUInfo {
        timestamp: "".to_string(),
        driver_version: "555.00".to_string(),
        cuda_version: "12.4".to_string(),
        attached_gpus: 1,
        gpus: vec![sample_gpu()],
    };
    assert_eq!(mem_str_width(&info), 5);
}

#[test]
fn gpu_row_lays_out_every_column() {
    let df = DF::new(false);
    let g = sample_gpu();
    let row = format_gpu_row(&df, &g, 0, 5);
    assert_eq!(row, "0 Test GPU 45\u{b0}C 215W  87%   256/24576MB");
}

#[test]
fn gpu_row_shows_the_limit_only_when_it_differs() {
    let df = DF::new(false);
    let mut g = sample_gpu();
    g.power_readings.limit = metric(300, Some("W"));
    let row = format_gpu_row(&df, &g, 1, 5);
    assert_eq!(row, "1 Test GPU 45\u{b0}C 215300W  87%   256/24576MB");
}
