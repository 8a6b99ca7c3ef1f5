use vstd::prelude::*;
use crate::model::{Device, TransportSpec};
use crate::text::{decimal, decimal_string};

verus! {

/// Serial data bits.
#[derive(Clone, Copy, Debug, PartialEq, Eq, Structural)]
pub enum DataBits {
    Five,
    Six,
    Seven,
    Eight,
}

/// Serial parity.
#[derive(Clone, Copy, Debug, PartialEq, Eq, Structural)]
pub enum Parity {
    Disabled,
    Even,
    Odd,
}

/// Serial stop bits.
#[derive(Clone, Copy, Debug, PartialEq, Eq, Structural)]
pub enum StopBits {
    One,
    Two,
}

/// 5, 6 and 7 data bits as given; anything else is 8.
pub open spec fn data_bits_spec(n: u8) -> DataBits {
    if n == 5 {
        DataBits::Five
    } else if n == 6 {
        DataBits::Six
    } else if n == 7 {
        DataBits::Seven
    } else {
        DataBits::Eight
    }
}

/// `even` and `odd` as given; anything else is no parity.
pub open spec fn parity_spec(p: Seq<char>) -> Parity {
    if p == "even"@ {
        Parity::Even
    } else if p == "odd"@ {
        Parity::Odd
    } else {
        Parity::Disabled
    }
}

/// Two stop bits when 2 is given; anything else is one.
pub open spec fn stop_bits_spec(n: u8) -> StopBits {
    if n == 2 { StopBits::Two } else { StopBits::One }
}

/// The serial settings asked for are the ones opened: parity `odd` is odd
/// parity and `even` even parity (any other text none), 5, 6 and 7 data bits
/// are kept (anything else is 8), and 2 stop bits are kept (anything else is
/// 1). Different named settings never open alike.
pub proof fn lemma_serial_settings_kept(parity: Seq<char>, data_bits: u8, stop_bits: u8)
    ensures
        parity_spec(parity) == Parity::Odd <==> parity == "odd"@,
        parity_spec(parity) == Parity::Even <==> parity == "even"@,
        parity_spec(parity) == Parity::Disabled <==> (parity != "odd"@ && parity != "even"@),
        data_bits_spec(data_bits) == DataBits::Five <==> data_bits == 5,
        data_bits_spec(data_bits) == DataBits::Six <==> data_bits == 6,
        data_bits_spec(data_bits) == DataBits::Seven <==> data_bits == 7,
        data_bits_spec(data_bits) == DataBits::Eight <==> (data_bits < 5 || data_bits > 7),
        stop_bits_spec(stop_bits) == StopBits::Two <==> stop_bits == 2,
        stop_bits_spec(stop_bits) == StopBits::One <==> stop_bits != 2,
{
    reveal_strlit("odd");
    reveal_strlit("even");
    assert("odd"@.len() == 3 && "even"@.len() == 4);
}

/// How to open a device's connection.
#[derive(Debug)]
pub enum ConnectPlan {
    /// Connect over TCP to `address`, written `host:port`.
    Tcp { address: String },
    /// Open the serial port and talk to slave `slave`.
    Rtu {
        port: String,
        baud: u32,
        data_bits: DataBits,
        parity: Parity,
        stop_bits: StopBits,
        timeout_ms: u64,
        slave: u8,
    },
}

/// The connection a device's settings ask for: TCP to `host:port`, or the
/// serial port with its settings mapped, the timeout, and as slave id the
/// parameter `slave_id` (default 1), its low 8 bits.
pub fn connect_plan(device: &Device) -> (r: ConnectPlan)
    ensures
        device.transport matches TransportSpec::Tcp { host, port } ==> (r matches ConnectPlan::Tcp { address }
            && address@ == host@ + ":"@ + decimal(port as nat)),
        device.transport matches TransportSpec::Rtu { port, baud, data_bits, parity, stop_bits } ==> (r matches ConnectPlan::Rtu {
            port: p,
            baud: b,
            data_bits: db,
            parity: pa,
            stop_bits: sb,
            timeout_ms,
            slave,
        } && p == port && b == baud && db == data_bits_spec(data_bits) && pa == parity_spec(parity@) && sb
            == stop_bits_spec(stop_bits) && timeout_ms == device.timeout_ms && slave == (match device.protocol_params.slave_id {
            Some(s) => s,
            None => 1,
        }) % 256),
{
    match &device.transport {
        TransportSpec::Tcp { host, port } => {
            let address = host.clone().concat(":").concat(decimal_string(*port as u64).as_str());
            ConnectPlan::Tcp { address }
        },
        TransportSpec::Rtu { port, baud, data_bits, parity, stop_bits } => {
            let db = if *data_bits == 5 {
                DataBits::Five
            } else if *data_bits == 6 {
                DataBits::Six
            } else if *data_bits == 7 {
                DataBits::Seven
            } else {
                DataBits::Eight
            };
            let pa = if *parity == String::from_str("even") {
                Parity::Even
            } else if *parity == String::from_str("odd") {
                Parity::Odd
            } else {
                Parity::Disabled
            };
            let sb = if *stop_bits == 2 { StopBits::Two } else { StopBits::One };
            let slave = (match device.protocol_params.slave_id { Some(s) => s, None => 1 } % 256) as u8;
            ConnectPlan::Rtu {
                port: port.clone(),
                baud: *baud,
                data_bits: db,
                parity: pa,
                stop_bits: sb,
                timeout_ms: device.timeout_ms,
                slave,
            }
        },
    }
}

} // verus!
