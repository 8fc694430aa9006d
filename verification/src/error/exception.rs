//! Modbus exception codes (the second byte of a refusal).

use vstd::prelude::*;

verus! {

pub const ILLEGAL_FUNCTION: u8 = 0x01;

pub const ILLEGAL_DATA_ADDRESS: u8 = 0x02;

pub const ILLEGAL_DATA_VALUE: u8 = 0x03;

pub const SLAVE_DEVICE_FAILURE: u8 = 0x04;

pub const ACKNOWLEDGE: u8 = 0x05;

pub const SLAVE_DEVICE_BUSY: u8 = 0x06;

/// The gateway has no path to the target.
pub const GATEWAY_PATH_UNAVAILABLE: u8 = 0x0A;

/// The gateway's target did not answer; the reply for a unit id that is not configured.
pub const GATEWAY_TARGET_FAILED: u8 = 0x0B;

/// The English name of an exception code.
pub open spec fn name_text(code: u8) -> Seq<char> {
    if code == 0x01 {
        "Illegal Function"@
    } else if code == 0x02 {
        "Illegal Data Address"@
    } else if code == 0x03 {
        "Illegal Data Value"@
    } else if code == 0x04 {
        "Slave Device Failure"@
    } else if code == 0x05 {
        "Acknowledge"@
    } else if code == 0x06 {
        "Slave Device Busy"@
    } else {
        "Unknown Exception"@
    }
}

/// The English name of an exception code.
pub fn name(code: u8) -> (r: &'static str)
    ensures
        r@ == name_text(code),
{
    match code {
        0x01 => "Illegal Function",
        0x02 => "Illegal Data Address",
        0x03 => "Illegal Data Value",
        0x04 => "Slave Device Failure",
        0x05 => "Acknowledge",
        0x06 => "Slave Device Busy",
        _ => "Unknown Exception",
    }
}

/// The Chinese name of an exception code.
pub open spec fn zh_name_text(code: u8) -> Seq<char> {
    if code == 0x01 {
        "非法的功能码"@
    } else if code == 0x02 {
        "非法的数据地址"@
    } else if code == 0x03 {
        "非法的数据值"@
    } else if code == 0x04 {
        "从设备故障"@
    } else if code == 0x06 {
        "从设备忙"@
    } else if code == 0x0A {
        "网关路径不可用"@
    } else if code == 0x0B {
        "网关目标设备无法响应"@
    } else {
        "未知异常"@
    }
}

/// The Chinese name of an exception code.
pub fn zh_name(code: u8) -> (r: &'static str)
    ensures
        r@ == zh_name_text(code),
{
    match code {
        0x01 => "非法的功能码",
        0x02 => "非法的数据地址",
        0x03 => "非法的数据值",
        0x04 => "从设备故障",
        0x06 => "从设备忙",
        0x0A => "网关路径不可用",
        0x0B => "网关目标设备无法响应",
        _ => "未知异常",
    }
}

/// The explanation of an exception code, in Chinese; none for a code that is not listed.
pub open spec fn description_text(code: u8) -> Option<Seq<char>> {
    if code == 0x01 {
        Some("查询中收到的功能代码不被从站识别或不被从站允许。"@)
    } else if code == 0x02 {
        Some("查询中收到的数据地址（寄存器编号）不是从站允许的地址，即寄存器不存在。如果请求多个寄存器，则至少有一个寄存器不被允许。"@)
    } else if code == 0x03 {
        Some("查询数据字段中包含的值对于从站来说是不可接受的。"@)
    } else if code == 0x04 {
        Some("从站尝试执行请求的操作时发生不可恢复的错误"@)
    } else if code == 0x06 {
        Some("从属设备正在处理一个长持续时间的命令。主设备应稍后重试。"@)
    } else if code == 0x0A {
        Some("与网关结合使用的专门用途，通常意味着网关配置错误或超载"@)
    } else if code == 0x0B {
        Some("专门与网关结合使用，表示未从目标设备收到响应。"@)
    } else {
        None
    }
}

/// The explanation of an exception code, in Chinese; none for a code that is not listed.
pub fn description(code: u8) -> (r: Option<&'static str>)
    ensures
        match r {
            Some(d) => description_text(code) == Some(d@),
            None => description_text(code) is None,
        },
{
    match code {
        0x01 => Some("查询中收到的功能代码不被从站识别或不被从站允许。"),
        0x02 => Some("查询中收到的数据地址（寄存器编号）不是从站允许的地址，即寄存器不存在。如果请求多个寄存器，则至少有一个寄存器不被允许。"),
        0x03 => Some("查询数据字段中包含的值对于从站来说是不可接受的。"),
        0x04 => Some("从站尝试执行请求的操作时发生不可恢复的错误"),
        0x06 => Some("从属设备正在处理一个长持续时间的命令。主设备应稍后重试。"),
        0x0A => Some("与网关结合使用的专门用途，通常意味着网关配置错误或超载"),
        0x0B => Some("专门与网关结合使用，表示未从目标设备收到响应。"),
        _ => None,
    }
}

/// An exception code that is listed has a name and an explanation of its own; all others
/// share one name and have no explanation.
pub proof fn law_listed_codes(code: u8)
    ensures
        description_text(code) is Some <==> (1 <= code <= 4 || code == 6 || code == 10 || code
            == 11),
        zh_name_text(code) == "未知异常"@ <==> !(1 <= code <= 4 || code == 6 || code == 10 || code
            == 11),
        name_text(code) == "Unknown Exception"@ <==> !(1 <= code <= 6),
{
    reveal_strlit("非法的功能码");
    reveal_strlit("非法的数据地址");
    reveal_strlit("非法的数据值");
    reveal_strlit("从设备故障");
    reveal_strlit("从设备忙");
    reveal_strlit("网关路径不可用");
    reveal_strlit("网关目标设备无法响应");
    reveal_strlit("未知异常");
    assert("未知异常"@[0] == '未' && "非法的功能码"@[0] == '非' && "非法的数据地址"@[0] == '非'
        && "非法的数据值"@[0] == '非' && "从设备故障"@[0] == '从' && "从设备忙"@[0] == '从'
        && "网关路径不可用"@[0] == '网' && "网关目标设备无法响应"@[0] == '网');
    reveal_strlit("Illegal Function");
    reveal_strlit("Illegal Data Address");
    reveal_strlit("Illegal Data Value");
    reveal_strlit("Slave Device Failure");
    reveal_strlit("Acknowledge");
    reveal_strlit("Slave Device Busy");
    reveal_strlit("Unknown Exception");
    assert("Unknown Exception"@[0] == 'U' && "Illegal Function"@[0] == 'I'
        && "Illegal Data Address"@[0] == 'I' && "Illegal Data Value"@[0] == 'I'
        && "Slave Device Failure"@[0] == 'S' && "Acknowledge"@[0] == 'A' && "Slave Device Busy"@[0]
        == 'S');
}

/// The exception codes are those of the protocol.
pub proof fn law_exception_codes()
    ensures
        ILLEGAL_FUNCTION == 1 && ILLEGAL_DATA_ADDRESS == 2 && ILLEGAL_DATA_VALUE == 3,
        SLAVE_DEVICE_FAILURE == 4 && ACKNOWLEDGE == 5 && SLAVE_DEVICE_BUSY == 6,
        GATEWAY_PATH_UNAVAILABLE == 10 && GATEWAY_TARGET_FAILED == 11,
{
}

/// What each exception code is called, in English and in Chinese, and how it is explained.
pub proof fn law_exception_names(code: u8)
    ensures
        code == 1 ==> name_text(code) == "Illegal Function"@,
        code == 2 ==> name_text(code) == "Illegal Data Address"@,
        code == 3 ==> name_text(code) == "Illegal Data Value"@,
        code == 4 ==> name_text(code) == "Slave Device Failure"@,
        code == 5 ==> name_text(code) == "Acknowledge"@,
        code == 6 ==> name_text(code) == "Slave Device Busy"@,
        code == 1 ==> zh_name_text(code) == "非法的功能码"@,
        code == 2 ==> zh_name_text(code) == "非法的数据地址"@,
        code == 3 ==> zh_name_text(code) == "非法的数据值"@,
        code == 4 ==> zh_name_text(code) == "从设备故障"@,
        code == 6 ==> zh_name_text(code) == "从设备忙"@,
        code == 10 ==> zh_name_text(code) == "网关路径不可用"@,
        code == 11 ==> zh_name_text(code) == "网关目标设备无法响应"@,
        code == 1 ==> description_text(code) == Some("查询中收到的功能代码不被从站识别或不被从站允许。"@),
        code == 2 ==> description_text(code) == Some("查询中收到的数据地址（寄存器编号）不是从站允许的地址，即寄存器不存在。如果请求多个寄存器，则至少有一个寄存器不被允许。"@),
        code == 3 ==> description_text(code) == Some("查询数据字段中包含的值对于从站来说是不可接受的。"@),
        code == 4 ==> description_text(code) == Some("从站尝试执行请求的操作时发生不可恢复的错误"@),
        code == 6 ==> description_text(code) == Some("从属设备正在处理一个长持续时间的命令。主设备应稍后重试。"@),
        code == 10 ==> description_text(code) == Some("与网关结合使用的专门用途，通常意味着网关配置错误或超载"@),
        code == 11 ==> description_text(code) == Some("专门与网关结合使用，表示未从目标设备收到响应。"@),
{
}

} // verus!
