//! The data that one capture of a power device yields.

use vstd::prelude::*;

verus! {

/// The IEEE-754 bit pattern of a 32-bit float (`f32::to_bits`).
///
/// The library never computes with these values: it only stores and
/// reproduces them, so it keeps them as their exact bit patterns.
pub type FloatBits = u32;

/// One history observation: time offset, value (as float bits) and state.
pub type HistorySample = (u32, FloatBits, u32);

/// How many fields a property snapshot has.
pub const FIELD_COUNT: usize = 29;

/// The kind of value a property field holds.
#[derive(PartialEq, Eq, Structural, Clone, Copy, Debug)]
pub enum FieldKind {
    Bool,
    Float,
    I64,
    Text,
    U32,
    U64,
}

/// The mathematical value of one property field.
pub enum FieldModel {
    Bool(bool),
    Float(FloatBits),
    I64(i64),
    Text(Seq<char>),
    U32(u32),
    U64(u64),
}

impl FieldModel {
    pub open spec fn kind(self) -> FieldKind {
        match self {
            FieldModel::Bool(_) => FieldKind::Bool,
            FieldModel::Float(_) => FieldKind::Float,
            FieldModel::I64(_) => FieldKind::I64,
            FieldModel::Text(_) => FieldKind::Text,
            FieldModel::U32(_) => FieldKind::U32,
            FieldModel::U64(_) => FieldKind::U64,
        }
    }
}

/// The kind of the field with index `i`, in schema order: six flags, ten
/// floats, two signed times, five texts, five unsigned codes, one timestamp.
pub open spec fn field_kind(i: int) -> FieldKind {
    if i < 6 {
        FieldKind::Bool
    } else if i < 16 {
        FieldKind::Float
    } else if i < 18 {
        FieldKind::I64
    } else if i < 23 {
        FieldKind::Text
    } else if i < 28 {
        FieldKind::U32
    } else {
        FieldKind::U64
    }
}

/// The zero value of a kind: `false`, `0`, `0.0` or the empty text.
pub open spec fn zero_of(k: FieldKind) -> FieldModel {
    match k {
        FieldKind::Bool => FieldModel::Bool(false),
        FieldKind::Float => FieldModel::Float(0),
        FieldKind::I64 => FieldModel::I64(0),
        FieldKind::Text => FieldModel::Text(Seq::empty()),
        FieldKind::U32 => FieldModel::U32(0),
        FieldKind::U64 => FieldModel::U64(0),
    }
}

/// The snapshot with every field at its zero value.
pub open spec fn zero_fields() -> Seq<FieldModel> {
    Seq::new(FIELD_COUNT as nat, |i: int| zero_of(field_kind(i)))
}

/// A field sequence that fits the schema.
pub open spec fn fits_schema(m: Seq<FieldModel>) -> bool {
    &&& m.len() == FIELD_COUNT
    &&& forall|i: int| 0 <= i < FIELD_COUNT ==> #[trigger] m[i].kind() == field_kind(i)
}

/// An executable field value.
#[derive(Clone, Debug, PartialEq, Eq)]
pub enum FieldValue {
    Bool(bool),
    Float(FloatBits),
    I64(i64),
    Text(String),
    U32(u32),
    U64(u64),
}

impl View for FieldValue {
    type V = FieldModel;

    open spec fn view(&self) -> FieldModel {
        match self {
            FieldValue::Bool(b) => FieldModel::Bool(*b),
            FieldValue::Float(x) => FieldModel::Float(*x),
            FieldValue::I64(x) => FieldModel::I64(*x),
            FieldValue::Text(s) => FieldModel::Text(s@),
            FieldValue::U32(x) => FieldModel::U32(*x),
            FieldValue::U64(x) => FieldModel::U64(*x),
        }
    }
}

impl FieldValue {
    pub fn kind(&self) -> (k: FieldKind)
        ensures
            k == self@.kind(),
    {
        match self {
            FieldValue::Bool(_) => FieldKind::Bool,
            FieldValue::Float(_) => FieldKind::Float,
            FieldValue::I64(_) => FieldKind::I64,
            FieldValue::Text(_) => FieldKind::Text,
            FieldValue::U32(_) => FieldKind::U32,
            FieldValue::U64(_) => FieldKind::U64,
        }
    }
}

/// The kind of the field with index `i`.
pub fn kind_of_field(i: usize) -> (k: FieldKind)
    ensures
        k == field_kind(i as int),
{
    if i < 6 {
        FieldKind::Bool
    } else if i < 16 {
        FieldKind::Float
    } else if i < 18 {
        FieldKind::I64
    } else if i < 23 {
        FieldKind::Text
    } else if i < 28 {
        FieldKind::U32
    } else {
        FieldKind::U64
    }
}

/// One device's property snapshot at a point in time.
///
/// Float-valued properties are held as their bit patterns.
#[derive(Clone, Debug, PartialEq, Eq)]
pub struct UPowerProperties {
    pub has_history: bool,
    pub has_statistics: bool,
    pub is_present: bool,
    pub is_rechargeable: bool,
    pub online: bool,
    pub power_supply: bool,
    pub capacity: FloatBits,
    pub energy: FloatBits,
    pub energy_empty: FloatBits,
    pub energy_full: FloatBits,
    pub energy_full_design: FloatBits,
    pub energy_rate: FloatBits,
    pub luminosity: FloatBits,
    pub percentage: FloatBits,
    pub temperature: FloatBits,
    pub voltage: FloatBits,
    pub time_to_empty: i64,
    pub time_to_full: i64,
    pub icon_name: String,
    pub model: String,
    pub native_path: String,
    pub serial: String,
    pub vendor: String,
    pub battery_level: u32,
    pub state: u32,
    pub technology: u32,
    pub device_type: u32,
    pub warning_level: u32,
    pub update_time: u64,
}

impl View for UPowerProperties {
    type V = Seq<FieldModel>;

    /// The fields in schema order.
    open spec fn view(&self) -> Seq<FieldModel> {
        seq![
            FieldModel::Bool(self.has_history),
            FieldModel::Bool(self.has_statistics),
            FieldModel::Bool(self.is_present),
            FieldModel::Bool(self.is_rechargeable),
            FieldModel::Bool(self.online),
            FieldModel::Bool(self.power_supply),
            FieldModel::Float(self.capacity),
            FieldModel::Float(self.energy),
            FieldModel::Float(self.energy_empty),
            FieldModel::Float(self.energy_full),
            FieldModel::Float(self.energy_full_design),
            FieldModel::Float(self.energy_rate),
            FieldModel::Float(self.luminosity),
            FieldModel::Float(self.percentage),
            FieldModel::Float(self.temperature),
            FieldModel::Float(self.voltage),
            FieldModel::I64(self.time_to_empty),
            FieldModel::I64(self.time_to_full),
            FieldModel::Text(self.icon_name@),
            FieldModel::Text(self.model@),
            FieldModel::Text(self.native_path@),
            FieldModel::Text(self.serial@),
            FieldModel::Text(self.vendor@),
            FieldModel::U32(self.battery_level),
            FieldModel::U32(self.state),
            FieldModel::U32(self.technology),
            FieldModel::U32(self.device_type),
            FieldModel::U32(self.warning_level),
            FieldModel::U64(self.update_time),
        ]
    }
}

impl UPowerProperties {
    /// The field with index `i`.
    pub fn field(&self, i: usize) -> (r: FieldValue)
        requires
            i < FIELD_COUNT,
        ensures
            r@ == self@[i as int],
    {
        if i == 0 {
            FieldValue::Bool(self.has_history)
        } else if i == 1 {
            FieldValue::Bool(self.has_statistics)
        } else if i == 2 {
            FieldValue::Bool(self.is_present)
        } else if i == 3 {
            FieldValue::Bool(self.is_rechargeable)
        } else if i == 4 {
            FieldValue::Bool(self.online)
        } else if i == 5 {
            FieldValue::Bool(self.power_supply)
        } else if i == 6 {
            FieldValue::Float(self.capacity)
        } else if i == 7 {
            FieldValue::Float(self.energy)
        } else if i == 8 {
            FieldValue::Float(self.energy_empty)
        } else if i == 9 {
            FieldValue::Float(self.energy_full)
        } else if i == 10 {
            FieldValue::Float(self.energy_full_design)
        } else if i == 11 {
            FieldValue::Float(self.energy_rate)
        } else if i == 12 {
            FieldValue::Float(self.luminosity)
        } else if i == 13 {
            FieldValue::Float(self.percentage)
        } else if i == 14 {
            FieldValue::Float(self.temperature)
        } else if i == 15 {
            FieldValue::Float(self.voltage)
        } else if i == 16 {
            FieldValue::I64(self.time_to_empty)
        } else if i == 17 {
            FieldValue::I64(self.time_to_full)
        } else if i == 18 {
            FieldValue::Text(self.icon_name.clone())
        } else if i == 19 {
            FieldValue::Text(self.model.clone())
        } else if i == 20 {
            FieldValue::Text(self.native_path.clone())
        } else if i == 21 {
            FieldValue::Text(self.serial.clone())
        } else if i == 22 {
            FieldValue::Text(self.vendor.clone())
        } else if i == 23 {
            FieldValue::U32(self.battery_level)
        } else if i == 24 {
            FieldValue::U32(self.state)
        } else if i == 25 {
            FieldValue::U32(self.technology)
        } else if i == 26 {
            FieldValue::U32(self.device_type)
        } else if i == 27 {
            FieldValue::U32(self.warning_level)
        } else {
            FieldValue::U64(self.update_time)
        }
    }

    /// Replaces the field with index `i` by `v`, which is of that field's kind.
    pub fn set_field(&mut self, i: usize, v: FieldValue)
        requires
            i < FIELD_COUNT,
            v@.kind() == field_kind(i as int),
        ensures
            final(self)@ == old(self)@.update(i as int, v@),
    {
        match v {
            FieldValue::Bool(x) => {
                if i == 0 {
                    self.has_history = x;
                } else if i == 1 {
                    self.has_statistics = x;
                } else if i == 2 {
                    self.is_present = x;
                } else if i == 3 {
                    self.is_rechargeable = x;
                } else if i == 4 {
                    self.online = x;
                } else {
                    self.power_supply = x;
                }
            },
            FieldValue::Float(x) => {
                if i == 6 {
                    self.capacity = x;
                } else if i == 7 {
                    self.energy = x;
                } else if i == 8 {
                    self.energy_empty = x;
                } else if i == 9 {
                    self.energy_full = x;
                } else if i == 10 {
                    self.energy_full_design = x;
                } else if i == 11 {
                    self.energy_rate = x;
                } else if i == 12 {
                    self.luminosity = x;
                } else if i == 13 {
                    self.percentage = x;
                } else if i == 14 {
                    self.temperature = x;
                } else {
                    self.voltage = x;
                }
            },
            FieldValue::I64(x) => {
                if i == 16 {
                    self.time_to_empty = x;
                } else {
                    self.time_to_full = x;
                }
            },
            FieldValue::Text(x) => {
                if i == 18 {
                    self.icon_name = x;
                } else if i == 19 {
                    self.model = x;
                } else if i == 20 {
                    self.native_path = x;
                } else if i == 21 {
                    self.serial = x;
                } else {
                    self.vendor = x;
                }
            },
            FieldValue::U32(x) => {
                if i == 23 {
                    self.battery_level = x;
                } else if i == 24 {
                    self.state = x;
                } else if i == 25 {
                    self.technology = x;
                } else if i == 26 {
                    self.device_type = x;
                } else {
                    self.warning_level = x;
                }
            },
            FieldValue::U64(x) => {
                self.update_time = x;
            },
        }
        assert(self@ =~= old(self)@.update(i as int, v@));
    }
}

impl Default for UPowerProperties {
    /// The snapshot with every field at its zero value.
    fn default() -> (r: Self)
        ensures
            r@ == zero_fields(),
    {
        let r = UPowerProperties {
            has_history: false,
            has_statistics: false,
            is_present: false,
            is_rechargeable: false,
            online: false,
            power_supply: false,
            capacity: 0,
            energy: 0,
            energy_empty: 0,
            energy_full: 0,
            energy_full_design: 0,
            energy_rate: 0,
            luminosity: 0,
            percentage: 0,
            temperature: 0,
            voltage: 0,
            time_to_empty: 0,
            time_to_full: 0,
            icon_name: String::new(),
            model: String::new(),
            native_path: String::new(),
            serial: String::new(),
            vendor: String::new(),
            battery_level: 0,
            state: 0,
            technology: 0,
            device_type: 0,
            warning_level: 0,
            update_time: 0,
        };
        assert(r@ =~= zero_fields());
        r
    }
}

} // verus!
