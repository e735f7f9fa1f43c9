//! Choosing a device to install on or to remove from.

use vstd::prelude::*;
use crate::error::{ErrorView, VxApoError};
use crate::install::device::info;
use crate::install::device::info::{enumerate_devices, DeviceInfo, DeviceView};
use crate::install::device::stale::detect;
use crate::install::device::stale::detect::mode_name;
use crate::install::selector::operation;
use crate::install::selector::operation::InstallConfig;
use crate::registry::{KeyView, Registry};
use crate::text;
use crate::text::{concat3, decimal_text, parse_usize, trim_text};

verus! {

/// The devices to choose from.
pub fn list_devices(registry: &Registry) -> (r: Result<Vec<DeviceInfo>, VxApoError>)
    ensures
        r matches Ok(list) && info::devices(list@) == info::active_devices(registry@),
{
    enumerate_devices(registry)
}

/// The line that shows a device: its number, its name, whether this library is
/// installed there, and the mode.
pub open spec fn device_line(i: nat, d: DeviceView) -> Seq<char> {
    let name = match d.endpoint {
        Some(e) => e.friendly_name,
        None => "<unknown>"@,
    };
    let state = if info::installed(d) {
        "已安装"@
    } else {
        "未安装"@
    };
    "  ["@ + text::decimal(i) + "] "@ + (name + " ("@ + state) + (", "@ + detect::mode_text(
        d.install_mode,
    ) + ")"@)
}

fn show_device(i: usize, d: &DeviceInfo) -> (r: String)
    ensures
        r@ == device_line(i as nat, d@),
{
    let number = decimal_text(i as u64);
    let head = concat3("  [", number.as_str(), "] ");
    let state = if d.is_installed() {
        "已安装"
    } else {
        "未安装"
    };
    let middle = match &d.endpoint {
        Some(e) => concat3(e.friendly_name.as_str(), " (", state),
        None => concat3("<unknown>", " (", state),
    };
    let tail = concat3(", ", mode_name(d.install_mode), ")");
    concat3(head.as_str(), middle.as_str(), tail.as_str())
}

/// The lines that show some devices.
pub fn print_device_list(devices: &[DeviceInfo]) -> (r: Vec<String>)
    ensures
        text::texts(r@) == info::devices(devices@).map(|i: int, d: DeviceView| device_line(
            i as nat,
            d,
        )),
{
    let mut out: Vec<String> = Vec::new();
    let mut i: usize = 0;
    while i < devices.len()
        invariant
            i <= devices.len(),
            out@.len() == i,
            forall|j: int| 0 <= j < i ==> (#[trigger] out@[j])@ == device_line(j as nat, devices@[j]@),
        decreases devices.len() - i,
    {
        out.push(show_device(i, &devices[i]));
        i += 1;
    }
    assert(text::texts(out@) =~= info::devices(devices@).map(|i: int, d: DeviceView| device_line(
        i as nat,
        d,
    )));
    out
}

/// What asks for the number of one of so many devices.
pub open spec fn prompt_line(count: nat) -> Seq<char> {
    "请选择设备编号 [0-"@ + text::decimal(
        if count > 0 {
            (count - 1) as nat
        } else {
            0
        },
    ) + "]: "@
}

/// What asks for the number of one of so many devices.
pub fn prompt_text(count: usize) -> (r: String)
    ensures
        r@ == prompt_line(count as nat),
{
    let last: usize = if count > 0 {
        count - 1
    } else {
        0
    };
    let digits = decimal_text(last as u64);
    concat3("请选择设备编号 [0-", digits.as_str(), "]: ")
}

/// The number that an answer gives, of one of so many devices.
pub open spec fn answered(count: nat, line: Seq<char>) -> Result<usize, ErrorView> {
    match text::usize_of(text::trim(line)) {
        None => Err(ErrorView::Internal("无效的设备编号"@)),
        Some(i) => if i < count {
            Ok(i)
        } else {
            Err(ErrorView::Internal("设备编号超出范围"@))
        },
    }
}

/// The number that an answer gives, of one of the devices; an error when it gives
/// none, or one out of range.
pub fn prompt_user(devices: &[DeviceInfo], line: &str) -> (r: Result<usize, VxApoError>)
    ensures
        match answered(devices@.len(), line@) {
            Ok(i) => r == Ok::<usize, VxApoError>(i),
            Err(error) => r matches Err(e) && e@ == error,
        },
{
    let t = trim_text(line);
    match parse_usize(t.as_str()) {
        None => Err(VxApoError::internal("无效的设备编号")),
        Some(i) => if i >= devices.len() {
            Err(VxApoError::internal("设备编号超出范围"))
        } else {
            Ok(i)
        },
    }
}

/// The device that an answer chooses; none when the answer is not the number of
/// one.
pub open spec fn chosen(r: Seq<KeyView>, line: Seq<char>) -> Option<DeviceView> {
    let list = info::active_devices(r);
    match answered(list.len(), line) {
        Ok(i) => Some(list[i as int]),
        Err(_) => None,
    }
}

/// The device that an answer chooses: none when the answer is not the number of
/// one, an error when there are no devices.
pub fn select_device(registry: &Registry, line: &str) -> (r: Result<Option<DeviceInfo>, VxApoError>)
    ensures
        if info::active_devices(registry@).len() == 0 {
            r matches Err(e) && e@ == ErrorView::Internal("未发现任何音频端点"@)
        } else {
            match r {
                Ok(Some(d)) => chosen(registry@, line@) == Some(d@),
                Ok(None) => chosen(registry@, line@) is None,
                Err(_) => false,
            }
        },
{
    let mut devices = match list_devices(registry) {
        Ok(d) => d,
        Err(e) => {
            return Err(e);
        },
    };
    assert(info::devices(devices@).len() == devices@.len());
    if devices.len() == 0 {
        return Err(VxApoError::internal("未发现任何音频端点"));
    }
    match prompt_user(devices.as_slice(), line) {
        Ok(i) => {
            assert(info::devices(devices@)[i as int] == devices@[i as int]@);
            Ok(Some(devices.remove(i)))
        },
        Err(_) => Ok(None),
    }
}

/// What to install, and where.
#[derive(Clone, Debug, PartialEq, Eq)]
pub struct InstallRequest {
    pub device_guid: String,
    pub device_name: String,
    pub connection_name: String,
    pub config: InstallConfig,
}

/// What an answer says is wrong with it.
pub open spec fn choice_error(r: Seq<KeyView>, line: Seq<char>) -> Option<ErrorView> {
    if info::active_devices(r).len() == 0 {
        Some(ErrorView::Internal("未发现任何音频端点"@))
    } else {
        match chosen(r, line) {
            None => Some(ErrorView::Internal("未选择设备"@)),
            Some(d) => if d.endpoint is None {
                Some(ErrorView::Internal("设备缺少端点信息"@))
            } else {
                None
            },
        }
    }
}

/// What to install on the device that an answer chooses: what is installed where
/// nothing else is asked for.
pub fn run_install_flow(registry: &Registry, line: &str) -> (r: Result<InstallRequest, VxApoError>)
    ensures
        match choice_error(registry@, line@) {
            Some(error) => r matches Err(e) && e@ == error,
            None => r matches Ok(q) && ({
                let e = chosen(registry@, line@).unwrap().endpoint.unwrap();
                &&& q.device_guid@ == e.endpoint_guid
                &&& q.device_name@ == e.friendly_name
                &&& q.connection_name@ == e.friendly_name
                &&& q.config == operation::standard_config()
            }),
        },
{
    let device = match select_device(registry, line) {
        Ok(Some(d)) => d,
        Ok(None) => {
            return Err(VxApoError::internal("未选择设备"));
        },
        Err(e) => {
            return Err(e);
        },
    };
    match &device.endpoint {
        Some(e) => Ok(
            InstallRequest {
                device_guid: e.endpoint_guid.clone(),
                device_name: e.friendly_name.clone(),
                connection_name: e.friendly_name.clone(),
                config: InstallConfig::default_config(),
            },
        ),
        None => Err(VxApoError::internal("设备缺少端点信息")),
    }
}

/// The endpoint of the device that an answer chooses, to remove an installation
/// from.
pub fn run_uninstall_flow(registry: &Registry, line: &str) -> (r: Result<String, VxApoError>)
    ensures
        match choice_error(registry@, line@) {
            Some(error) => r matches Err(e) && e@ == error,
            None => r matches Ok(guid) && guid@ == chosen(
                registry@,
                line@,
            ).unwrap().endpoint.unwrap().endpoint_guid,
        },
{
    let device = match select_device(registry, line) {
        Ok(Some(d)) => d,
        Ok(None) => {
            return Err(VxApoError::internal("未选择设备"));
        },
        Err(e) => {
            return Err(e);
        },
    };
    match &device.endpoint {
        Some(e) => Ok(e.endpoint_guid.clone()),
        None => Err(VxApoError::internal("设备缺少端点信息")),
    }
}

/// Only the number of one of the devices is an answer, and it is the answer that its
/// digits give; a number out of range is another error than what is no number.
pub proof fn law_answers(count: nat, i: nat, line: Seq<char>)
    requires
        i <= usize::MAX,
    ensures
        i < count ==> answered(count, text::decimal(i)) == Ok::<usize, ErrorView>(i as usize),
        i >= count ==> answered(count, text::decimal(i)) == Err::<usize, ErrorView>(
            ErrorView::Internal("设备编号超出范围"@),
        ),
        answered(count, line) matches Ok(n) ==> n < count && text::usize_of(text::trim(line))
            == Some(n),
        text::usize_of(text::trim(line)) is None ==> answered(count, line) == Err::<
            usize,
            ErrorView,
        >(ErrorView::Internal("无效的设备编号"@)),
{
    text::law_decimal_reads_back(i);
}

} // verus!
