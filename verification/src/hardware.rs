//! Findings about the machine, from what was read of it.
//!
//! What is not known stays unknown: it never turns into a zero, and never into a finding that
//! all is well.
use crate::report;
use crate::report::{Check, CheckRow, CheckStatus, Finding, RowText, SystemReport};
use crate::text;
use crate::units;
use vstd::prelude::*;

verus! {

/// How many USB devices are listed.
pub const USB_LIMIT: usize = 24;

/// The class of USB hubs, which are not listed.
pub const USB_CLASS_HUB: u8 = 0x09;

/// A text that is more than white space.
pub open spec fn meaningful(s: Option<String>) -> Option<Seq<char>> {
    match s {
        Some(t) => if text::trimmed(t@).len() > 0 {
            Some(t@)
        } else {
            None
        },
        None => None,
    }
}

fn keep_meaningful(s: &Option<String>) -> (r: Option<String>)
    ensures
        text::said(r) == meaningful(*s),
{
    match s {
        Some(t) => {
            let bare = text::trim(t.as_str());
            if bare.as_str().is_empty() {
                None
            } else {
                Some(t.clone())
            }
        },
        None => None,
    }
}

/// A text that is more than white space, without the white space at its ends.
pub open spec fn bare(s: Option<String>) -> Option<Seq<char>> {
    match s {
        Some(t) => if text::trimmed(t@).len() > 0 {
            Some(text::trimmed(t@))
        } else {
            None
        },
        None => None,
    }
}

fn keep_bare(s: &Option<String>) -> (r: Option<String>)
    ensures
        text::said(r) == bare(*s),
{
    match s {
        Some(t) => {
            let cut = text::trim(t.as_str());
            if cut.as_str().is_empty() {
                None
            } else {
                Some(cut)
            }
        },
        None => None,
    }
}

/// A finding about something that could not be found out or of which nothing is known.
pub open spec fn plain_finding(
    name: Seq<char>,
    status: CheckStatus,
    summary: Seq<char>,
    rows: Seq<RowText>,
) -> Finding {
    Finding { name, status, summary, rows, advice: None }
}

fn plain_check(name: &str, status: CheckStatus, summary: String, rows: Vec<CheckRow>) -> (r: Check)
    ensures
        r@ == plain_finding(name@, status, summary@, report::row_texts(rows@)),
{
    Check { name: name.to_owned(), status, summary, rows, advice: None }
}

fn no_rows() -> (r: Vec<CheckRow>)
    ensures
        report::row_texts(r@) == Seq::<RowText>::empty(),
{
    let rows: Vec<CheckRow> = Vec::new();
    assert(report::row_texts(rows@) =~= Seq::empty());
    rows
}

fn add_row(rows: &mut Vec<CheckRow>, row: CheckRow)
    ensures
        report::row_texts(final(rows)@) == report::row_texts(old(rows)@).push(row@),
{
    rows.push(row);
    assert(report::row_texts(rows@) =~= report::row_texts(old(rows)@).push(row@));
}

fn glued(a: &str, b: &str) -> (r: String)
    ensures
        r@ == a@ + b@,
{
    let mut out = a.to_owned();
    out.append(b);
    out
}

/// What was read of the operating system.
#[derive(Debug)]
pub struct SystemReading {
    pub name: Option<String>,
    pub kernel: Option<String>,
    pub host: Option<String>,
    pub arch: String,
    pub uptime_secs: u64,
}

pub open spec fn system_finding(s: SystemReading) -> Finding {
    let rows = seq![
        report::row("Ядро"@, text::said(s.kernel)),
        report::row("Имя компьютера"@, text::said(s.host)),
        report::row("Разрядность"@, Some(s.arch@)),
        report::row("Время работы"@, Some(units::uptime(s.uptime_secs as nat))),
    ];
    match s.name {
        Some(name) => plain_finding("Система"@, CheckStatus::Fine, name@, rows),
        None => plain_finding(
            "Система"@,
            CheckStatus::Unknown,
            "Система себя не назвала"@,
            rows,
        ),
    }
}

/// The operating system and how long it has been running.
pub fn system_check(s: &SystemReading) -> (r: Check)
    ensures
        r@ == system_finding(*s),
{
    let mut rows = no_rows();
    add_row(&mut rows, CheckRow::maybe("Ядро", &s.kernel));
    add_row(&mut rows, CheckRow::maybe("Имя компьютера", &s.host));
    add_row(&mut rows, CheckRow::new("Разрядность", s.arch.as_str()));
    let uptime = units::human_uptime(s.uptime_secs);
    add_row(&mut rows, CheckRow::new("Время работы", uptime.as_str()));
    let check = match &s.name {
        Some(name) => plain_check("Система", CheckStatus::Fine, name.clone(), rows),
        None => plain_check(
            "Система",
            CheckStatus::Unknown,
            "Система себя не назвала".to_owned(),
            rows,
        ),
    };
    assert(check@.rows =~= system_finding(*s).rows);
    check
}

/// What was read of the processor.
#[derive(Debug)]
pub struct CpuReading {
    pub brand: Option<String>,
    pub vendor: Option<String>,
    pub physical_cores: Option<u64>,
    pub logical_cores: u64,
    pub mhz: Option<u64>,
    /// The load in percent, as it is shown.
    pub load: Option<String>,
}

pub open spec fn number_text(n: Option<u64>) -> Option<Seq<char>> {
    match n {
        Some(n) => Some(text::decimal(n as nat)),
        None => None,
    }
}

fn number_option(n: Option<u64>) -> (r: Option<String>)
    ensures
        text::said(r) == number_text(n),
{
    match n {
        Some(n) => Some(text::decimal_text(n)),
        None => None,
    }
}

pub open spec fn cpu_finding(c: CpuReading) -> Finding {
    let rows = seq![
        report::row("Производитель"@, bare(c.vendor)),
        report::row("Физических ядер"@, number_text(c.physical_cores)),
        report::row("Логических ядер"@, Some(text::decimal(c.logical_cores as nat))),
        report::row(
            "Частота"@,
            (match c.mhz {
                Some(mhz) => units::frequency(mhz as nat),
                None => None,
            }),
        ),
        report::row("Загрузка"@, text::said(c.load)),
    ];
    match bare(c.brand) {
        Some(brand) => plain_finding("Процессор"@, CheckStatus::Fine, brand, rows),
        None => plain_finding(
            "Процессор"@,
            CheckStatus::Unknown,
            "Процессор себя не назвал"@,
            rows,
        ),
    }
}

pub fn cpu_check(c: &CpuReading) -> (r: Check)
    ensures
        r@ == cpu_finding(*c),
{
    let vendor = keep_bare(&c.vendor);
    let physical = number_option(c.physical_cores);
    let logical = text::decimal_text(c.logical_cores);
    let frequency = match c.mhz {
        Some(mhz) => units::human_mhz(mhz),
        None => None,
    };
    let mut rows = no_rows();
    add_row(&mut rows, CheckRow::maybe("Производитель", &vendor));
    add_row(&mut rows, CheckRow::maybe("Физических ядер", &physical));
    add_row(&mut rows, CheckRow::new("Логических ядер", logical.as_str()));
    add_row(&mut rows, CheckRow::maybe("Частота", &frequency));
    add_row(&mut rows, CheckRow::maybe("Загрузка", &c.load));
    let check = match keep_bare(&c.brand) {
        Some(brand) => plain_check("Процессор", CheckStatus::Fine, brand, rows),
        None => plain_check(
            "Процессор",
            CheckStatus::Unknown,
            "Процессор себя не назвал".to_owned(),
            rows,
        ),
    };
    assert(check@.rows =~= cpu_finding(*c).rows);
    check
}

/// Whether less than a tenth of a volume or of the memory is free.
pub open spec fn is_low(available: u64, total: u64) -> bool {
    10 * available < total
}

fn runs_low(available: u64, total: u64) -> (r: bool)
    ensures
        r == is_low(available, total),
{
    10 * (available as u128) < total as u128
}

/// So much out of so much.
pub open spec fn out_of(part: u64, total: u64) -> Seq<char> {
    units::size(part as nat) + " из "@ + units::size(total as nat)
}

fn out_of_text(part: u64, total: u64) -> (r: String)
    ensures
        r@ == out_of(part, total),
{
    let mut out = units::human_bytes(part);
    out.append(" из ");
    out.append(units::human_bytes(total).as_str());
    out
}

/// What was read of the memory, in bytes.
#[derive(Debug, Clone, Copy)]
pub struct MemoryReading {
    pub total: u64,
    pub available: u64,
    pub used: u64,
    pub total_swap: u64,
    pub used_swap: u64,
}

pub open spec fn memory_finding(m: MemoryReading) -> Finding {
    let low = is_low(m.available, m.total);
    if m.total == 0 {
        plain_finding(
            "Память"@,
            CheckStatus::Unknown,
            "Объём памяти узнать не удалось"@,
            seq![report::row("Всего"@, None)],
        )
    } else {
        Finding {
            name: "Память"@,
            status: (if low {
                CheckStatus::Warning
            } else {
                CheckStatus::Fine
            }),
            summary: "Свободно "@ + out_of(m.available, m.total),
            rows: seq![
                report::row("Всего"@, Some(units::size(m.total as nat))),
                report::row("Занято"@, Some(units::size(m.used as nat))),
                report::row("Доступно"@, Some(units::size(m.available as nat))),
                report::row(
                    "Файл подкачки"@,
                    Some(
                        (if m.total_swap == 0 {
                            "выключен"@
                        } else {
                            out_of(m.used_swap, m.total_swap)
                        }),
                    ),
                ),
            ],
            advice: (if low {
                Some("Памяти почти не осталось: закройте лишние программы."@)
            } else {
                None
            }),
        }
    }
}

pub fn memory_check(m: MemoryReading) -> (r: Check)
    ensures
        r@ == memory_finding(m),
{
    let mut rows = no_rows();
    if m.total == 0 {
        add_row(&mut rows, CheckRow::missing("Всего"));
        let check = plain_check(
            "Память",
            CheckStatus::Unknown,
            "Объём памяти узнать не удалось".to_owned(),
            rows,
        );
        assert(check@.rows =~= memory_finding(m).rows);
        return check;
    }
    let total = units::human_bytes(m.total);
    let used = units::human_bytes(m.used);
    let available = units::human_bytes(m.available);
    let swap = if m.total_swap == 0 {
        "выключен".to_owned()
    } else {
        out_of_text(m.used_swap, m.total_swap)
    };
    add_row(&mut rows, CheckRow::new("Всего", total.as_str()));
    add_row(&mut rows, CheckRow::new("Занято", used.as_str()));
    add_row(&mut rows, CheckRow::new("Доступно", available.as_str()));
    add_row(&mut rows, CheckRow::new("Файл подкачки", swap.as_str()));
    let low = runs_low(m.available, m.total);
    let free = out_of_text(m.available, m.total);
    let check = Check {
        name: "Память".to_owned(),
        status: if low {
            CheckStatus::Warning
        } else {
            CheckStatus::Fine
        },
        summary: glued("Свободно ", free.as_str()),
        rows,
        advice: if low {
            Some("Памяти почти не осталось: закройте лишние программы.".to_owned())
        } else {
            None
        },
    };
    assert(check@.rows =~= memory_finding(m).rows);
    check
}

/// What drives a volume.
#[derive(Debug, Clone, Copy, PartialEq, Eq, Structural)]
pub enum DiskKind {
    Hdd,
    Ssd,
    Other,
}

/// What was read of a volume. A volume is not a disk: two parts of one disk are two volumes.
#[derive(Debug)]
pub struct DiskReading {
    pub mount: String,
    pub file_system: String,
    pub total: u64,
    pub available: u64,
    pub kind: DiskKind,
    pub removable: bool,
}

pub open spec fn kind_words(kind: DiskKind) -> Option<Seq<char>> {
    match kind {
        DiskKind::Hdd => Some("Жёсткий диск"@),
        DiskKind::Ssd => Some("SSD"@),
        DiskKind::Other => None,
    }
}

pub open spec fn disk_finding(d: DiskReading) -> Finding {
    let low = is_low(d.available, d.total);
    let name = "Том "@ + d.mount@;
    if d.total == 0 {
        plain_finding(
            name,
            CheckStatus::Unknown,
            "Объём тома узнать не удалось"@,
            seq![report::row("Всего"@, None)],
        )
    } else {
        Finding {
            name,
            status: (if low {
                CheckStatus::Warning
            } else {
                CheckStatus::Fine
            }),
            summary: "Свободно "@ + out_of(d.available, d.total),
            rows: seq![
                report::row("Точка подключения"@, Some(d.mount@)),
                report::row("Файловая система"@, Some(d.file_system@)),
                report::row("Всего"@, Some(units::size(d.total as nat))),
                report::row("Свободно"@, Some(units::size(d.available as nat))),
                report::row("Тип"@, kind_words(d.kind)),
                report::row(
                    "Съёмный"@,
                    Some(
                        (if d.removable {
                            "да"@
                        } else {
                            "нет"@
                        }),
                    ),
                ),
            ],
            advice: (if low {
                Some("Место на томе заканчивается: освободите его."@)
            } else {
                None
            }),
        }
    }
}

fn disk_check(d: &DiskReading) -> (r: Check)
    ensures
        r@ == disk_finding(*d),
{
    let name = glued("Том ", d.mount.as_str());
    let mut rows = no_rows();
    if d.total == 0 {
        add_row(&mut rows, CheckRow::missing("Всего"));
        let check = plain_check(
            name.as_str(),
            CheckStatus::Unknown,
            "Объём тома узнать не удалось".to_owned(),
            rows,
        );
        assert(check@.rows =~= disk_finding(*d).rows);
        return check;
    }
    let total = units::human_bytes(d.total);
    let available = units::human_bytes(d.available);
    let kind: Option<String> = match d.kind {
        DiskKind::Hdd => Some("Жёсткий диск".to_owned()),
        DiskKind::Ssd => Some("SSD".to_owned()),
        DiskKind::Other => None,
    };
    add_row(&mut rows, CheckRow::new("Точка подключения", d.mount.as_str()));
    add_row(&mut rows, CheckRow::new("Файловая система", d.file_system.as_str()));
    add_row(&mut rows, CheckRow::new("Всего", total.as_str()));
    add_row(&mut rows, CheckRow::new("Свободно", available.as_str()));
    add_row(&mut rows, CheckRow::maybe("Тип", &kind));
    add_row(
        &mut rows,
        CheckRow::new(
            "Съёмный",
            if d.removable {
                "да"
            } else {
                "нет"
            },
        ),
    );
    let low = runs_low(d.available, d.total);
    let free = out_of_text(d.available, d.total);
    let check = Check {
        name,
        status: if low {
            CheckStatus::Warning
        } else {
            CheckStatus::Fine
        },
        summary: glued("Свободно ", free.as_str()),
        rows,
        advice: if low {
            Some("Место на томе заканчивается: освободите его.".to_owned())
        } else {
            None
        },
    };
    assert(check@.rows =~= disk_finding(*d).rows);
    check
}

/// One finding for each volume, or one that there are none.
pub open spec fn disk_findings(disks: Seq<DiskReading>) -> Seq<Finding> {
    if disks.len() == 0 {
        seq![
            plain_finding(
                "Диски"@,
                CheckStatus::Unknown,
                "Ни одного тома не найдено"@,
                Seq::empty(),
            ),
        ]
    } else {
        disks.map_values(|d: DiskReading| disk_finding(d))
    }
}

pub fn disk_checks(disks: &Vec<DiskReading>) -> (r: Vec<Check>)
    ensures
        report::findings(r@) == disk_findings(disks@),
{
    let mut out: Vec<Check> = Vec::new();
    if disks.len() == 0 {
        out.push(
            plain_check(
                "Диски",
                CheckStatus::Unknown,
                "Ни одного тома не найдено".to_owned(),
                no_rows(),
            ),
        );
        assert(report::findings(out@) =~= disk_findings(disks@));
        return out;
    }
    let mut i: usize = 0;
    while i < disks.len()
        invariant
            i <= disks@.len(),
            disks@.len() > 0,
            out@.len() == i,
            forall|k: int| 0 <= k < i ==> (#[trigger] out@[k])@ == disk_finding(disks@[k]),
        decreases disks@.len() - i,
    {
        out.push(disk_check(&disks[i]));
        i += 1;
    }
    assert(report::findings(out@) =~= disk_findings(disks@));
    out
}

/// A network interface: its name and its hardware address, where it has one.
#[derive(Debug)]
pub struct NetworkReading {
    pub name: String,
    pub mac: Option<String>,
}

pub open spec fn network_rows(list: Seq<NetworkReading>) -> Seq<RowText> {
    list.map_values(|n: NetworkReading| report::row(n.name@, text::said(n.mac)))
}

pub open spec fn network_finding(list: Seq<NetworkReading>) -> Finding {
    if list.len() == 0 {
        plain_finding(
            "Сеть"@,
            CheckStatus::Unknown,
            "Сетевых интерфейсов не найдено"@,
            Seq::empty(),
        )
    } else {
        plain_finding(
            "Сеть"@,
            CheckStatus::Fine,
            units::counted(list.len(), "интерфейс"@, "интерфейса"@, "интерфейсов"@),
            network_rows(list),
        )
    }
}

pub fn network_check(list: &Vec<NetworkReading>) -> (r: Check)
    ensures
        r@ == network_finding(list@),
{
    let mut rows = no_rows();
    let ghost all = network_rows(list@);
    let mut i: usize = 0;
    assert(all.take(0) =~= Seq::empty());
    while i < list.len()
        invariant
            i <= list@.len(),
            all == network_rows(list@),
            report::row_texts(rows@) == all.take(i as int),
        decreases list@.len() - i,
    {
        assert(all[i as int] == report::row(
            list@[i as int].name@,
            text::said(list@[i as int].mac),
        ));
        add_row(&mut rows, CheckRow::maybe(list[i].name.as_str(), &list[i].mac));
        assert(all.take(i + 1) =~= all.take(i as int).push(all[i as int]));
        i += 1;
    }
    assert(all.take(i as int) =~= all);
    if list.len() == 0 {
        assert(all =~= Seq::empty());
        return plain_check(
            "Сеть",
            CheckStatus::Unknown,
            "Сетевых интерфейсов не найдено".to_owned(),
            rows,
        );
    }
    plain_check(
        "Сеть",
        CheckStatus::Fine,
        units::counted_text(list.len() as u64, "интерфейс", "интерфейса", "интерфейсов"),
        rows,
    )
}

/// What a battery is doing.
#[derive(Debug, Clone, Copy, PartialEq, Eq, Structural)]
pub enum BatteryState {
    Charging,
    Discharging,
    Empty,
    Full,
    Unknown,
}

impl BatteryState {
    pub open spec fn name(self) -> Seq<char> {
        match self {
            BatteryState::Charging => "заряжается"@,
            BatteryState::Discharging => "разряжается"@,
            BatteryState::Empty => "разряжена"@,
            BatteryState::Full => "от сети"@,
            BatteryState::Unknown => "неизвестно"@,
        }
    }

    pub fn label(self) -> (r: &'static str)
        ensures
            r@ == self.name(),
    {
        match self {
            BatteryState::Charging => "заряжается",
            BatteryState::Discharging => "разряжается",
            BatteryState::Empty => "разряжена",
            BatteryState::Full => "от сети",
            BatteryState::Unknown => "неизвестно",
        }
    }
}

/// The part of its capacity that a battery has lost, as it is shown, and whether that is more
/// than a sound battery loses.
#[derive(Debug)]
pub struct Wear {
    pub percent: String,
    pub worn: bool,
}

/// What was read of a battery. Charge and wear are quotients of capacities: where a capacity
/// is not reported they mean nothing, however plausible they look.
#[derive(Debug)]
pub struct BatteryReading {
    /// The capacity now, where it is reported.
    pub full: Option<String>,
    /// The capacity when new, where it is reported.
    pub design: Option<String>,
    pub charge: Option<String>,
    pub wear: Option<Wear>,
    pub state: BatteryState,
    pub cycles: Option<u64>,
    pub voltage: String,
    pub power: String,
    pub vendor: Option<String>,
    pub model: Option<String>,
}

/// What came of asking for batteries.
#[derive(Debug)]
pub enum BatteryProbe {
    /// The system could not be asked.
    NoManager(String),
    /// The batteries could not be listed.
    NoList(String),
    /// There is none.
    Absent,
    /// The first that could be read.
    Present(BatteryReading),
}

/// The charge, where the capacity that it is a part of is reported.
pub open spec fn trusted_charge(b: BatteryReading) -> Option<Seq<char>> {
    if b.full is Some {
        text::said(b.charge)
    } else {
        None
    }
}

/// The wear, where both capacities that it is made of are reported.
pub open spec fn trusted_wear(b: BatteryReading) -> Option<Wear> {
    if b.full is Some && b.design is Some {
        b.wear
    } else {
        None
    }
}

pub open spec fn wear_text(wear: Option<Wear>) -> Option<Seq<char>> {
    match wear {
        Some(w) => Some(w.percent@),
        None => None,
    }
}

pub open spec fn battery_rows(b: BatteryReading) -> Seq<RowText> {
    seq![
        report::row("Заряд"@, trusted_charge(b)),
        report::row("Состояние"@, Some(b.state.name())),
        report::row("Ёмкость сейчас"@, text::said(b.full)),
        report::row("Ёмкость по паспорту"@, text::said(b.design)),
        report::row("Износ"@, wear_text(trusted_wear(b))),
        report::row("Циклов заряда"@, number_text(b.cycles)),
        report::row("Напряжение"@, Some(b.voltage@)),
        report::row("Мощность"@, Some(b.power@)),
        report::row("Производитель"@, meaningful(b.vendor)),
        report::row("Модель"@, meaningful(b.model)),
    ]
}

pub open spec fn battery_finding(probe: BatteryProbe) -> Finding {
    match probe {
        BatteryProbe::NoManager(why) => plain_finding(
            "Батарея"@,
            CheckStatus::Failed,
            "Не удалось спросить о батарее: "@ + why@,
            Seq::empty(),
        ),
        BatteryProbe::NoList(why) => plain_finding(
            "Батарея"@,
            CheckStatus::Failed,
            "Не удалось перечислить батареи: "@ + why@,
            Seq::empty(),
        ),
        BatteryProbe::Absent => plain_finding(
            "Батарея"@,
            CheckStatus::Unknown,
            "Батареи нет"@,
            Seq::empty(),
        ),
        BatteryProbe::Present(b) => match trusted_wear(b) {
            None => plain_finding(
                "Батарея"@,
                CheckStatus::Unknown,
                "Ёмкость батареи не сообщается"@,
                battery_rows(b),
            ),
            Some(wear) => Finding {
                name: "Батарея"@,
                status: (if wear.worn {
                    CheckStatus::Warning
                } else {
                    CheckStatus::Fine
                }),
                summary: "Заряд "@ + (match trusted_charge(b) {
                    Some(c) => c,
                    None => "неизвестен"@,
                }) + ", износ "@ + wear.percent@,
                rows: battery_rows(b),
                advice: (if wear.worn {
                    Some("Батарея изношена."@)
                } else {
                    None
                }),
            },
        },
    }
}

fn reading_rows(b: &BatteryReading, charge: &Option<String>, wear: &Option<String>) -> (r: Vec<
    CheckRow,
>)
    requires
        text::said(*charge) == trusted_charge(*b),
        text::said(*wear) == wear_text(trusted_wear(*b)),
    ensures
        report::row_texts(r@) == battery_rows(*b),
{
    let cycles = number_option(b.cycles);
    let vendor = keep_meaningful(&b.vendor);
    let model = keep_meaningful(&b.model);
    let mut rows = no_rows();
    add_row(&mut rows, CheckRow::maybe("Заряд", charge));
    add_row(&mut rows, CheckRow::new("Состояние", b.state.label()));
    add_row(&mut rows, CheckRow::maybe("Ёмкость сейчас", &b.full));
    add_row(&mut rows, CheckRow::maybe("Ёмкость по паспорту", &b.design));
    add_row(&mut rows, CheckRow::maybe("Износ", wear));
    add_row(&mut rows, CheckRow::maybe("Циклов заряда", &cycles));
    add_row(&mut rows, CheckRow::new("Напряжение", b.voltage.as_str()));
    add_row(&mut rows, CheckRow::new("Мощность", b.power.as_str()));
    add_row(&mut rows, CheckRow::maybe("Производитель", &vendor));
    add_row(&mut rows, CheckRow::maybe("Модель", &model));
    assert(report::row_texts(rows@) =~= battery_rows(*b));
    rows
}

/// The battery and its wear.
pub fn battery_check(probe: &BatteryProbe) -> (r: Check)
    ensures
        r@ == battery_finding(*probe),
{
    let b: &BatteryReading = match probe {
        BatteryProbe::NoManager(why) => {
            return plain_check(
                "Батарея",
                CheckStatus::Failed,
                glued("Не удалось спросить о батарее: ", why.as_str()),
                no_rows(),
            );
        },
        BatteryProbe::NoList(why) => {
            return plain_check(
                "Батарея",
                CheckStatus::Failed,
                glued("Не удалось перечислить батареи: ", why.as_str()),
                no_rows(),
            );
        },
        BatteryProbe::Absent => {
            return plain_check(
                "Батарея",
                CheckStatus::Unknown,
                "Батареи нет".to_owned(),
                no_rows(),
            );
        },
        BatteryProbe::Present(b) => b,
    };
    let charge: Option<String> = if b.full.is_some() {
        text::copy_option(&b.charge)
    } else {
        None
    };
    let (wear, worn): (Option<String>, bool) = if b.full.is_some() && b.design.is_some() {
        match &b.wear {
            Some(w) => (Some(w.percent.clone()), w.worn),
            None => (None, false),
        }
    } else {
        (None, false)
    };
    let rows = reading_rows(b, &charge, &wear);
    match wear {
        None => plain_check(
            "Батарея",
            CheckStatus::Unknown,
            "Ёмкость батареи не сообщается".to_owned(),
            rows,
        ),
        Some(lost) => {
            let mut summary = "Заряд ".to_owned();
            match &charge {
                Some(c) => summary.append(c.as_str()),
                None => summary.append("неизвестен"),
            }
            summary.append(", износ ");
            summary.append(lost.as_str());
            Check {
                name: "Батарея".to_owned(),
                status: if worn {
                    CheckStatus::Warning
                } else {
                    CheckStatus::Fine
                },
                summary,
                rows,
                advice: if worn {
                    Some("Батарея изношена.".to_owned())
                } else {
                    None
                },
            }
        },
    }
}

/// A battery is called sound, or worn, only where both its capacities are reported; without
/// them nothing is known of it, and no charge or wear is shown that rests on them.
pub proof fn health_is_trusted_only_with_both_capacities(b: BatteryReading)
    ensures
        ({
            let f = battery_finding(BatteryProbe::Present(b));
            &&& (b.full is None || b.design is None) ==> f.status == CheckStatus::Unknown
            &&& f.status != CheckStatus::Unknown ==> b.full is Some && b.design is Some
                && b.wear is Some
            &&& b.full is None ==> f.rows[0].value is None
            &&& (b.full is None || b.design is None) ==> f.rows[4].value is None
        }),
{
}

/// How fast a USB device is.
#[derive(Debug, Clone, Copy, PartialEq, Eq, Structural)]
pub enum UsbSpeed {
    Low,
    Full,
    High,
    Super,
    SuperPlus,
    Unknown,
}

/// What was read of a USB device.
#[derive(Debug)]
pub struct UsbReading {
    pub class: u8,
    pub product: Option<String>,
    pub vendor_id: u16,
    pub product_id: u16,
    pub speed: UsbSpeed,
    pub version: u16,
}

/// What came of asking for USB devices.
#[derive(Debug)]
pub enum UsbProbe {
    /// They could not be listed.
    NoList(String),
    Listed(Vec<UsbReading>),
}

pub open spec fn speed_words(speed: UsbSpeed) -> Option<Seq<char>> {
    match speed {
        UsbSpeed::Low => Some("1.5 Мбит/с"@),
        UsbSpeed::Full => Some("12 Мбит/с"@),
        UsbSpeed::High => Some("480 Мбит/с"@),
        UsbSpeed::Super => Some("5 Гбит/с"@),
        UsbSpeed::SuperPlus => Some("10 Гбит/с"@),
        UsbSpeed::Unknown => None,
    }
}

/// A device: by its own name, or by its numbers where it has none; with its version and speed.
pub open spec fn device_row(d: UsbReading) -> RowText {
    report::row(
        (match meaningful(d.product) {
            Some(name) => name,
            None => "Устройство "@ + text::hex4(d.vendor_id) + ":"@ + text::hex4(d.product_id),
        }),
        Some(
            (match speed_words(d.speed) {
                Some(speed) => "USB "@ + units::usb_text(d.version) + ", "@ + speed,
                None => "USB "@ + units::usb_text(d.version),
            }),
        ),
    )
}

/// The devices but for the hubs.
pub open spec fn without_hubs(list: Seq<UsbReading>) -> Seq<UsbReading>
    decreases list.len(),
{
    if list.len() == 0 {
        list
    } else if list.last().class == USB_CLASS_HUB {
        without_hubs(list.drop_last())
    } else {
        without_hubs(list.drop_last()).push(list.last())
    }
}

pub open spec fn device_count(n: nat) -> Seq<char> {
    units::counted(n, "устройство"@, "устройства"@, "устройств"@)
}

/// The rows for so many devices as are listed, and one that tells how many are not.
pub open spec fn device_rows(devices: Seq<UsbReading>) -> Seq<RowText> {
    let all = devices.map_values(|d: UsbReading| device_row(d));
    if devices.len() <= USB_LIMIT {
        all
    } else {
        all.take(USB_LIMIT as int).push(
            report::row("И ещё"@, Some(device_count((devices.len() - USB_LIMIT) as nat))),
        )
    }
}

pub open spec fn usb_finding(probe: UsbProbe) -> Finding {
    match probe {
        UsbProbe::NoList(why) => plain_finding(
            "USB"@,
            CheckStatus::Failed,
            "Не удалось перечислить устройства USB: "@ + why@,
            Seq::empty(),
        ),
        UsbProbe::Listed(list) => {
            let devices = without_hubs(list@);
            if devices.len() == 0 {
                plain_finding(
                    "USB"@,
                    CheckStatus::Unknown,
                    "Устройств USB не найдено"@,
                    Seq::empty(),
                )
            } else {
                plain_finding(
                    "USB"@,
                    CheckStatus::Fine,
                    device_count(devices.len()),
                    device_rows(devices),
                )
            }
        },
    }
}

fn device_check_row(d: &UsbReading) -> (r: CheckRow)
    ensures
        r@ == device_row(*d),
{
    let label = match keep_meaningful(&d.product) {
        Some(name) => name,
        None => {
            let mut out = "Устройство ".to_owned();
            out.append(text::hex4_text(d.vendor_id).as_str());
            out.append(":");
            out.append(text::hex4_text(d.product_id).as_str());
            out
        },
    };
    let mut value = "USB ".to_owned();
    value.append(units::usb_version(d.version).as_str());
    let speed: Option<&str> = match d.speed {
        UsbSpeed::Low => Some("1.5 Мбит/с"),
        UsbSpeed::Full => Some("12 Мбит/с"),
        UsbSpeed::High => Some("480 Мбит/с"),
        UsbSpeed::Super => Some("5 Гбит/с"),
        UsbSpeed::SuperPlus => Some("10 Гбит/с"),
        UsbSpeed::Unknown => None,
    };
    if let Some(words) = speed {
        value.append(", ");
        value.append(words);
    }
    CheckRow::new(label.as_str(), value.as_str())
}

/// The USB devices. A list that was cut says so.
pub fn usb_check(probe: &UsbProbe) -> (r: Check)
    ensures
        r@ == usb_finding(*probe),
{
    let list: &Vec<UsbReading> = match probe {
        UsbProbe::NoList(why) => {
            return plain_check(
                "USB",
                CheckStatus::Failed,
                glued("Не удалось перечислить устройства USB: ", why.as_str()),
                no_rows(),
            );
        },
        UsbProbe::Listed(list) => list,
    };
    let mut rows = no_rows();
    let mut total: usize = 0;
    let mut i: usize = 0;
    let ghost mut devices: Seq<UsbReading> = Seq::empty();
    assert(list@.take(0) =~= Seq::empty());
    while i < list.len()
        invariant
            i <= list@.len(),
            devices == without_hubs(list@.take(i as int)),
            total == devices.len(),
            total <= i,
            report::row_texts(rows@) == listed_rows(devices),
        decreases list@.len() - i,
    {
        let d = &list[i];
        proof {
            assert(list@.take(i + 1).drop_last() =~= list@.take(i as int));
            assert(list@.take(i + 1).last() == *d);
        }
        if d.class != USB_CLASS_HUB {
            let ghost before = devices;
            proof {
                devices = devices.push(*d);
            }
            if total < USB_LIMIT {
                add_row(&mut rows, device_check_row(d));
                assert(listed_rows(devices) =~= listed_rows(before).push(device_row(*d)));
            } else {
                assert(listed_rows(devices) =~= listed_rows(before));
            }
            total += 1;
        }
        i += 1;
    }
    assert(list@.take(i as int) =~= list@);
    if total > USB_LIMIT {
        let rest = units::counted_text(
            (total - USB_LIMIT) as u64,
            "устройство",
            "устройства",
            "устройств",
        );
        add_row(&mut rows, CheckRow::new("И ещё", rest.as_str()));
    }
    if total == 0 {
        assert(listed_rows(devices) =~= Seq::empty());
        return plain_check(
            "USB",
            CheckStatus::Unknown,
            "Устройств USB не найдено".to_owned(),
            rows,
        );
    }
    assert(report::row_texts(rows@) =~= device_rows(devices));
    plain_check(
        "USB",
        CheckStatus::Fine,
        units::counted_text(total as u64, "устройство", "устройства", "устройств"),
        rows,
    )
}

/// The rows for so many devices as are listed.
pub open spec fn listed_rows(devices: Seq<UsbReading>) -> Seq<RowText> {
    let all = devices.map_values(|d: UsbReading| device_row(d));
    if devices.len() <= USB_LIMIT {
        all
    } else {
        all.take(USB_LIMIT as int)
    }
}

/// A list of devices never outgrows its limit by more than the row that tells of the rest.
pub proof fn device_list_is_bounded(devices: Seq<UsbReading>)
    ensures
        device_rows(devices).len() <= USB_LIMIT + 1,
{
}

/// What draws.
#[derive(Debug, Clone, Copy, PartialEq, Eq, Structural)]
pub enum GpuKind {
    Discrete,
    Integrated,
    Virtual,
    Cpu,
    Other,
}

impl GpuKind {
    pub open spec fn name(self) -> Seq<char> {
        match self {
            GpuKind::Discrete => "дискретная"@,
            GpuKind::Integrated => "встроенная"@,
            GpuKind::Virtual => "виртуальная"@,
            GpuKind::Cpu => "программная отрисовка"@,
            GpuKind::Other => "тип неизвестен"@,
        }
    }

    pub fn label(self) -> (r: &'static str)
        ensures
            r@ == self.name(),
    {
        match self {
            GpuKind::Discrete => "дискретная",
            GpuKind::Integrated => "встроенная",
            GpuKind::Virtual => "виртуальная",
            GpuKind::Cpu => "программная отрисовка",
            GpuKind::Other => "тип неизвестен",
        }
    }
}

/// The graphics card that draws the window.
#[derive(Debug)]
pub struct GpuInfo {
    pub name: String,
    pub kind: GpuKind,
    pub vendor: Option<String>,
    pub driver: Option<String>,
    pub backend: String,
}

/// What a [`GpuInfo`] says.
#[verifier::ext_equal]
pub struct GpuText {
    pub name: Seq<char>,
    pub kind: GpuKind,
    pub vendor: Option<Seq<char>>,
    pub driver: Option<Seq<char>>,
    pub backend: Seq<char>,
}

impl View for GpuInfo {
    type V = GpuText;

    open spec fn view(&self) -> GpuText {
        GpuText {
            name: self.name@,
            kind: self.kind,
            vendor: text::said(self.vendor),
            driver: text::said(self.driver),
            backend: self.backend@,
        }
    }
}

/// What was read of the adapter that draws the window.
#[derive(Debug)]
pub struct AdapterReading {
    pub name: String,
    pub kind: GpuKind,
    /// The number of the vendor; zero where it is not known.
    pub vendor_id: u32,
    pub driver: String,
    pub driver_info: String,
    pub backend: String,
}

/// The name that goes with the number of a vendor.
pub open spec fn vendor_label(vendor_id: u32) -> Seq<char> {
    match vendor_id {
        0x1002 => "AMD"@,
        0x106B => "Apple"@,
        0x13B5 => "ARM"@,
        0x14E4 => "Broadcom"@,
        0x1010 => "Imagination Technologies"@,
        0x8086 => "Intel"@,
        0x10005 => "Mesa"@,
        0x10DE => "NVIDIA"@,
        0x5143 => "Qualcomm"@,
        _ => "Unknown"@,
    }
}

/// `eframe::egui_wgpu::parse_vendor_id`: it knows nine vendors by their numbers and calls any
/// other one "Unknown".
#[verifier::external_body]
fn vendor_name(vendor_id: u32) -> (r: &'static str)
    ensures
        r@ == vendor_label(vendor_id),
{
    eframe::egui_wgpu::parse_vendor_id(vendor_id)
}

/// The vendor, where its number is told and known.
pub open spec fn known_vendor(vendor_id: u32) -> Option<Seq<char>> {
    if vendor_id != 0 && vendor_label(vendor_id) != "Unknown"@ {
        Some(vendor_label(vendor_id))
    } else {
        None
    }
}

/// A text that is more than white space.
pub open spec fn nonblank(s: String) -> Option<Seq<char>> {
    meaningful(Some(s))
}

/// What is shown of an adapter: nothing of one without a name; a vendor that is known; the
/// driver and its version as far as they are told.
pub open spec fn gpu_of(a: AdapterReading) -> Option<GpuText> {
    match nonblank(a.name) {
        None => None,
        Some(name) => Some(
            GpuText {
                name,
                kind: a.kind,
                vendor: known_vendor(a.vendor_id),
                driver: (match (nonblank(a.driver), nonblank(a.driver_info)) {
                    (Some(name), Some(version)) => Some(name.push(' ') + version),
                    (Some(one), None) => Some(one),
                    (None, Some(one)) => Some(one),
                    (None, None) => None,
                }),
                backend: a.backend@,
            },
        ),
    }
}

fn keep_nonblank(s: &String) -> (r: Option<String>)
    ensures
        text::said(r) == nonblank(*s),
{
    let cut = text::trim(s.as_str());
    if cut.as_str().is_empty() {
        None
    } else {
        Some(s.clone())
    }
}

/// What is shown of the adapter that draws the window.
pub fn read_gpu_info(a: &AdapterReading) -> (r: Option<GpuInfo>)
    ensures
        (match r {
            Some(g) => Some(g@),
            None => None,
        }) == gpu_of(*a),
{
    let name = match keep_nonblank(&a.name) {
        Some(name) => name,
        None => return None,
    };
    let vendor: Option<String> = if a.vendor_id == 0 {
        None
    } else {
        let label = vendor_name(a.vendor_id);
        if text::same_text(label, "Unknown") {
            None
        } else {
            Some(label.to_owned())
        }
    };
    let driver: Option<String> = match (keep_nonblank(&a.driver), keep_nonblank(&a.driver_info)) {
        (Some(one), Some(version)) => {
            let mut out = one;
            out.push(' ');
            out.append(version.as_str());
            Some(out)
        },
        (Some(one), None) => Some(one),
        (None, Some(one)) => Some(one),
        (None, None) => None,
    };
    Some(GpuInfo { name, kind: a.kind, vendor, driver, backend: a.backend.clone() })
}

pub open spec fn gpu_finding(g: GpuText) -> Finding {
    plain_finding(
        "Видеокарта"@,
        CheckStatus::Fine,
        g.name + ", "@ + g.kind.name(),
        seq![
            report::row("Производитель"@, g.vendor),
            report::row("Драйвер"@, g.driver),
            report::row("Отрисовка"@, Some(g.backend)),
        ],
    )
}

/// The graphics card that draws the window.
pub fn gpu_check(g: &GpuInfo) -> (r: Check)
    ensures
        r@ == gpu_finding(g@),
{
    let mut rows = no_rows();
    add_row(&mut rows, CheckRow::maybe("Производитель", &g.vendor));
    add_row(&mut rows, CheckRow::maybe("Драйвер", &g.driver));
    add_row(&mut rows, CheckRow::new("Отрисовка", g.backend.as_str()));
    let mut summary = g.name.clone();
    summary.append(", ");
    summary.append(g.kind.label());
    let check = plain_check("Видеокарта", CheckStatus::Fine, summary, rows);
    assert(check@.rows =~= gpu_finding(g@).rows);
    check
}

/// All that was read of the machine.
#[derive(Debug)]
pub struct Readings {
    pub system: SystemReading,
    pub cpu: CpuReading,
    pub memory: MemoryReading,
    pub disks: Vec<DiskReading>,
    pub networks: Vec<NetworkReading>,
    pub battery: BatteryProbe,
    pub usb: UsbProbe,
}

/// The findings in the order in which they are shown: first what every machine has, then what
/// it may lack.
pub open spec fn all_findings(m: Readings, gpu: Option<GpuText>) -> Seq<Finding> {
    let first = seq![system_finding(m.system), cpu_finding(m.cpu), memory_finding(m.memory)]
        + disk_findings(m.disks@) + seq![
        network_finding(m.networks@),
        battery_finding(m.battery),
        usb_finding(m.usb),
    ];
    match gpu {
        Some(g) => first.push(gpu_finding(g)),
        None => first,
    }
}

/// What a known graphics card says.
pub open spec fn gpu_text(gpu: Option<GpuInfo>) -> Option<GpuText> {
    match gpu {
        Some(g) => Some(g@),
        None => None,
    }
}

/// The whole report.
pub fn collect(m: &Readings, gpu: &Option<GpuInfo>) -> (r: SystemReport)
    ensures
        r@ == all_findings(*m, gpu_text(*gpu)),
{
    let mut checks: Vec<Check> = Vec::new();
    checks.push(system_check(&m.system));
    checks.push(cpu_check(&m.cpu));
    checks.push(memory_check(m.memory));
    let mut disks = disk_checks(&m.disks);
    assert(report::findings(checks@) =~= seq![
        system_finding(m.system),
        cpu_finding(m.cpu),
        memory_finding(m.memory),
    ]);
    let ghost first = report::findings(checks@);
    let ghost volumes = report::findings(disks@);
    checks.append(&mut disks);
    assert(report::findings(checks@) =~= first + volumes);
    checks.push(network_check(&m.networks));
    checks.push(battery_check(&m.battery));
    checks.push(usb_check(&m.usb));
    assert(report::findings(checks@) =~= first + volumes + seq![
        network_finding(m.networks@),
        battery_finding(m.battery),
        usb_finding(m.usb),
    ]);
    if let Some(g) = gpu {
        let ghost before = report::findings(checks@);
        checks.push(gpu_check(g));
        assert(report::findings(checks@) =~= before.push(gpu_finding(g@)));
    }
    SystemReport { checks }
}

/// Memory is judged by what is available: less than a tenth of it is a warning with advice, and
/// the summary names what is available out of all there is. What is used is listed, no more.
pub proof fn memory_is_judged_by_what_is_available(m: MemoryReading, c: Check)
    requires
        m.total > 0,
        c@ == memory_finding(m),
    ensures
        c.status == CheckStatus::Warning <==> 10 * m.available < m.total,
        c.status == CheckStatus::Fine <==> 10 * m.available >= m.total,
        c.advice is Some <==> 10 * m.available < m.total,
        c.summary@ == "Свободно "@ + units::size(m.available as nat) + " из "@ + units::size(
            m.total as nat,
        ),
        c.rows@.len() == 4,
        c.rows@[0].label@ == "Всего"@ && c.rows@[0].value is Some && c.rows@[0].value->0@
            == units::size(m.total as nat),
        c.rows@[1].label@ == "Занято"@ && c.rows@[1].value is Some && c.rows@[1].value->0@
            == units::size(m.used as nat),
        c.rows@[2].label@ == "Доступно"@ && c.rows@[2].value is Some && c.rows@[2].value->0@
            == units::size(m.available as nat),
        c.rows@[3].label@ == "Файл подкачки"@ && c.rows@[3].value is Some,
        m.total_swap == 0 ==> c.rows@[3].value->0@ == "выключен"@,
        m.total_swap > 0 ==> c.rows@[3].value->0@ == units::size(m.used_swap as nat) + " из "@
            + units::size(m.total_swap as nat),
{
    let f = memory_finding(m);
    assert(c@.rows.len() == c.rows@.len());
    assert(c@.rows[0] == c.rows@[0]@ && c@.rows[1] == c.rows@[1]@ && c@.rows[2] == c.rows@[2]@
        && c@.rows[3] == c.rows@[3]@);
    assert(c.summary@ =~= "Свободно "@ + units::size(m.available as nat) + " из "@ + units::size(
        m.total as nat,
    ));
}

/// How much is used has no part in the verdict on memory, and where less is available the
/// verdict is never better.
pub proof fn less_memory_is_never_better(m: MemoryReading, used: u64, less: u64)
    requires
        less <= m.available,
    ensures
        ({
            let (f, g) = (memory_finding(m), memory_finding(MemoryReading { used, ..m }));
            f.status == g.status && f.summary == g.summary && f.advice == g.advice
        }),
        memory_finding(m).status == CheckStatus::Warning ==> memory_finding(
            MemoryReading { available: less, ..m },
        ).status == CheckStatus::Warning,
        m.total > 0 && less == 0 ==> memory_finding(
            MemoryReading { available: less, ..m },
        ).status == CheckStatus::Warning,
        m.total > 0 && m.available == m.total ==> memory_finding(m).status == CheckStatus::Fine,
        m.total == 0 ==> memory_finding(m).status == CheckStatus::Unknown,
{
}

/// A volume is judged by what is free on it: less than a tenth is a warning with advice. Its
/// name, its file system, its size, what is free, its kind and whether it can be taken out are
/// listed.
pub proof fn volume_is_judged_by_what_is_free(disks: Seq<DiskReading>, i: int, r: Seq<Check>)
    requires
        0 <= i < disks.len(),
        disks[i].total > 0,
        report::findings(r) == disk_findings(disks),
    ensures
        r.len() == disks.len(),
        ({
            let (d, c) = (disks[i], r[i]);
            &&& c.name@ == "Том "@ + d.mount@
            &&& c.status == CheckStatus::Warning <==> 10 * d.available < d.total
            &&& c.status == CheckStatus::Fine <==> 10 * d.available >= d.total
            &&& c.advice is Some <==> 10 * d.available < d.total
            &&& c.summary@ == "Свободно "@ + units::size(d.available as nat) + " из "@
                + units::size(d.total as nat)
            &&& c.rows@.len() == 6
            &&& c.rows@[0].value is Some && c.rows@[0].value->0@ == d.mount@
            &&& c.rows@[1].value is Some && c.rows@[1].value->0@ == d.file_system@
            &&& c.rows@[2].value is Some && c.rows@[2].value->0@ == units::size(d.total as nat)
            &&& c.rows@[3].value is Some && c.rows@[3].value->0@ == units::size(d.available as nat)
            &&& c.rows@[4].value is None <==> d.kind == DiskKind::Other
            &&& d.kind == DiskKind::Ssd ==> c.rows@[4].value->0@ == "SSD"@
            &&& d.kind == DiskKind::Hdd ==> c.rows@[4].value->0@ == "Жёсткий диск"@
            &&& c.rows@[5].value is Some && c.rows@[5].value->0@ == (if d.removable {
                "да"@
            } else {
                "нет"@
            })
        }),
{
    assert(report::findings(r).len() == r.len());
    assert(disk_findings(disks).len() == disks.len());
    let c = r[i];
    assert(report::findings(r)[i] == c@);
    assert(disk_findings(disks)[i] == disk_finding(disks[i]));
    assert(c@.rows.len() == c.rows@.len());
    assert(c@.rows[0] == c.rows@[0]@ && c@.rows[1] == c.rows@[1]@ && c@.rows[2] == c.rows@[2]@
        && c@.rows[3] == c.rows@[3]@ && c@.rows[4] == c.rows@[4]@ && c@.rows[5] == c.rows@[5]@);
    assert(c.summary@ =~= "Свободно "@ + units::size(disks[i].available as nat) + " из "@
        + units::size(disks[i].total as nat));
}

/// Of a machine without volumes, and of a volume without a size, nothing is known, and neither
/// is called sound.
pub proof fn unknown_volume_is_not_called_sound(disks: Seq<DiskReading>, i: int)
    ensures
        disks.len() == 0 ==> disk_findings(disks).len() == 1 && disk_findings(disks)[0].status
            == CheckStatus::Unknown,
        0 <= i < disks.len() && disks[i].total == 0 ==> disk_findings(disks)[i].status
            == CheckStatus::Unknown && disk_findings(disks)[i].advice is None,
{
    if 0 <= i < disks.len() {
        assert(disk_findings(disks)[i] == disk_finding(disks[i]));
    }
}

/// The system is named by its own name, and all that was read of it is listed as it was read.
pub proof fn system_is_told_as_it_was_read(s: SystemReading, c: Check)
    requires
        c@ == system_finding(s),
    ensures
        s.name is Some ==> c.status == CheckStatus::Fine && c.summary@ == s.name->0@,
        s.name is None ==> c.status == CheckStatus::Unknown,
        c.advice is None,
        c.rows@.len() == 4,
        c.rows@[0].label@ == "Ядро"@ && text::said(c.rows@[0].value) == text::said(s.kernel),
        c.rows@[1].label@ == "Имя компьютера"@ && text::said(c.rows@[1].value) == text::said(
            s.host,
        ),
        c.rows@[2].label@ == "Разрядность"@ && text::said(c.rows@[2].value) == Some(s.arch@),
        c.rows@[3].label@ == "Время работы"@ && text::said(c.rows@[3].value) == Some(
            units::uptime(s.uptime_secs as nat),
        ),
{
    assert(c@.rows.len() == c.rows@.len());
    assert(c@.rows[0] == c.rows@[0]@ && c@.rows[1] == c.rows@[1]@ && c@.rows[2] == c.rows@[2]@
        && c@.rows[3] == c.rows@[3]@);
}

/// The processor is named by its own name, and its maker, its cores, its frequency and its load
/// are listed, each under its own label. A name of nothing but white space is none.
pub proof fn processor_is_told_as_it_was_read(p: CpuReading, c: Check)
    requires
        c@ == cpu_finding(p),
    ensures
        p.brand is Some && text::trimmed(p.brand->0@).len() > 0 ==> c.status == CheckStatus::Fine
            && c.summary@ == text::trimmed(p.brand->0@),
        p.brand is None || text::trimmed(p.brand->0@).len() == 0 ==> c.status
            == CheckStatus::Unknown,
        c.advice is None,
        c.rows@.len() == 5,
        c.rows@[0].label@ == "Производитель"@,
        p.vendor is Some && text::trimmed(p.vendor->0@).len() > 0 ==> text::said(c.rows@[0].value)
            == Some(text::trimmed(p.vendor->0@)),
        p.vendor is None ==> c.rows@[0].value is None,
        c.rows@[1].label@ == "Физических ядер"@ && (c.rows@[1].value is Some
            <==> p.physical_cores is Some),
        p.physical_cores is Some ==> c.rows@[1].value->0@ == text::decimal(
            p.physical_cores->0 as nat,
        ),
        c.rows@[2].label@ == "Логических ядер"@ && text::said(c.rows@[2].value) == Some(
            text::decimal(p.logical_cores as nat),
        ),
        c.rows@[3].label@ == "Частота"@ && (c.rows@[3].value is Some <==> p.mhz is Some
            && p.mhz->0 > 0),
        p.mhz is Some && p.mhz->0 > 0 ==> text::said(c.rows@[3].value) == units::frequency(
            p.mhz->0 as nat,
        ),
        c.rows@[4].label@ == "Загрузка"@ && text::said(c.rows@[4].value) == text::said(p.load),
{
    assert(c@.rows.len() == c.rows@.len());
    assert(c@.rows[0] == c.rows@[0]@ && c@.rows[1] == c.rows@[1]@ && c@.rows[2] == c.rows@[2]@
        && c@.rows[3] == c.rows@[3]@ && c@.rows[4] == c.rows@[4]@);
}

/// Every network interface is listed under its name with its address, and all are counted.
pub proof fn every_interface_is_listed(list: Seq<NetworkReading>, c: Check)
    requires
        c@ == network_finding(list),
    ensures
        c.status == (if list.len() == 0 {
            CheckStatus::Unknown
        } else {
            CheckStatus::Fine
        }),
        c.rows@.len() == list.len(),
        forall|i: int|
            0 <= i < list.len() ==> (#[trigger] c.rows@[i]).label@ == list[i].name@ && text::said(
                c.rows@[i].value,
            ) == text::said(list[i].mac),
        list.len() > 0 ==> c.summary@ == units::counted(
            list.len(),
            "интерфейс"@,
            "интерфейса"@,
            "интерфейсов"@,
        ),
{
    assert(c@.rows.len() == c.rows@.len());
    assert forall|i: int| 0 <= i < list.len() implies (#[trigger] c.rows@[i]).label@
        == list[i].name@ && text::said(c.rows@[i].value) == text::said(list[i].mac) by {
        assert(c@.rows[i] == c.rows@[i]@);
        assert(network_rows(list)[i] == report::row(list[i].name@, text::said(list[i].mac)));
    }
}

/// A battery whose two capacities are reported is judged by its wear, and its charge and its
/// wear are told; what was read of it is listed as it was read.
pub proof fn battery_is_judged_by_its_wear(b: BatteryReading, c: Check)
    requires
        c@ == battery_finding(BatteryProbe::Present(b)),
    ensures
        b.full is Some && b.design is Some && b.wear is Some ==> {
            let wear = b.wear->0;
            &&& c.status == CheckStatus::Warning <==> wear.worn
            &&& c.status == CheckStatus::Fine <==> !wear.worn
            &&& c.advice is Some <==> wear.worn
            &&& b.charge is Some ==> c.summary@ == "Заряд "@ + b.charge->0@ + ", износ "@
                + wear.percent@
            &&& text::said(c.rows@[4].value) == Some(wear.percent@)
        },
        b.full is None || b.design is None || b.wear is None ==> c.status == CheckStatus::Unknown
            && c.advice is None,
        c.rows@.len() == 10,
        b.full is Some ==> text::said(c.rows@[0].value) == text::said(b.charge),
        c.rows@[1].value is Some,
        b.state == BatteryState::Charging ==> c.rows@[1].value->0@ == "заряжается"@,
        b.state == BatteryState::Discharging ==> c.rows@[1].value->0@ == "разряжается"@,
        b.state == BatteryState::Empty ==> c.rows@[1].value->0@ == "разряжена"@,
        b.state == BatteryState::Full ==> c.rows@[1].value->0@ == "от сети"@,
        b.state == BatteryState::Unknown ==> c.rows@[1].value->0@ == "неизвестно"@,
        c.rows@[2].label@ == "Ёмкость сейчас"@ && text::said(c.rows@[2].value) == text::said(
            b.full,
        ),
        c.rows@[3].label@ == "Ёмкость по паспорту"@ && text::said(c.rows@[3].value) == text::said(
            b.design,
        ),
        c.rows@[5].label@ == "Циклов заряда"@ && (c.rows@[5].value is Some <==> b.cycles is Some),
        b.cycles is Some ==> c.rows@[5].value->0@ == text::decimal(b.cycles->0 as nat),
        c.rows@[6].label@ == "Напряжение"@ && text::said(c.rows@[6].value) == Some(b.voltage@),
        c.rows@[7].label@ == "Мощность"@ && text::said(c.rows@[7].value) == Some(b.power@),
        c.rows@[8].label@ == "Производитель"@,
        b.vendor is Some && text::trimmed(b.vendor->0@).len() > 0 ==> text::said(c.rows@[8].value)
            == Some(b.vendor->0@),
        c.rows@[9].label@ == "Модель"@,
        b.model is Some && text::trimmed(b.model->0@).len() > 0 ==> text::said(c.rows@[9].value)
            == Some(b.model->0@),
{
    assert(c@.rows.len() == c.rows@.len());
    assert(c@.rows[0] == c.rows@[0]@ && c@.rows[1] == c.rows@[1]@ && c@.rows[2] == c.rows@[2]@
        && c@.rows[3] == c.rows@[3]@ && c@.rows[4] == c.rows@[4]@);
    assert(c@.rows[5] == c.rows@[5]@ && c@.rows[6] == c.rows@[6]@ && c@.rows[7] == c.rows@[7]@
        && c@.rows[8] == c.rows@[8]@ && c@.rows[9] == c.rows@[9]@);
}

/// A battery that could not be asked for is a failure that tells why; one that is not there is
/// none.
pub proof fn missing_battery_is_no_failure(probe: BatteryProbe, c: Check)
    requires
        c@ == battery_finding(probe),
    ensures
        c.status == CheckStatus::Failed <==> probe is NoManager || probe is NoList,
        probe is Absent ==> c.status == CheckStatus::Unknown && c.summary@ == "Батареи нет"@,
        probe matches BatteryProbe::NoManager(why) ==> c.summary@
            == "Не удалось спросить о батарее: "@ + why@,
        probe matches BatteryProbe::NoList(why) ==> c.summary@ == "Не удалось перечислить батареи: "@
            + why@,
{
}

proof fn lemma_hubs(list: Seq<UsbReading>)
    ensures
        without_hubs(list) == list.filter(|d: UsbReading| d.class != 9),
    decreases list.len(),
{
    reveal(Seq::filter);
    if list.len() > 0 {
        lemma_hubs(list.drop_last());
    }
}

/// The USB devices are counted and listed in their order but for the hubs, which are of class
/// 9: the first 24 of them one by one, and the rest by how many they are.
pub proof fn devices_are_listed_but_for_hubs(list: Vec<UsbReading>, c: Check)
    requires
        c@ == usb_finding(UsbProbe::Listed(list)),
    ensures
        ({
            let devices = list@.filter(|d: UsbReading| d.class != 9);
            let n = devices.len();
            &&& c.status == (if n == 0 {
                CheckStatus::Unknown
            } else {
                CheckStatus::Fine
            })
            &&& n > 0 ==> c.summary@ == units::counted(
                n,
                "устройство"@,
                "устройства"@,
                "устройств"@,
            )
            &&& c.rows@.len() == (if n <= 24 {
                n
            } else {
                25
            })
            &&& n > 24 ==> c.rows@[24].label@ == "И ещё"@ && text::said(c.rows@[24].value) == Some(
                units::counted((n - 24) as nat, "устройство"@, "устройства"@, "устройств"@),
            )
            &&& forall|i: int|
                0 <= i < n && i < 24 ==> is_device_row(#[trigger] c.rows@[i], devices[i])
        }),
{
    let devices = list@.filter(|d: UsbReading| d.class != 9);
    lemma_hubs(list@);
    let n = devices.len();
    assert(c@.rows.len() == c.rows@.len());
    if n > 0 {
        assert forall|i: int| 0 <= i < n && i < 24 implies is_device_row(
            #[trigger] c.rows@[i],
            devices[i],
        ) by {
            assert(c@.rows[i] == c.rows@[i]@);
            assert(c@.rows[i] == device_row(devices[i]));
        }
        if n > 24 {
            assert(c@.rows[24] == c.rows@[24]@);
        }
    }
}

/// Whether a row tells of a device: by its own name, or by the numbers of its maker and its
/// model; the version of USB, and the speed where it is known.
pub open spec fn is_device_row(r: CheckRow, d: UsbReading) -> bool {
    let version = "USB "@ + units::usb_text(d.version);
    &&& d.product is Some && text::trimmed(d.product->0@).len() > 0 ==> r.label@ == d.product->0@
    &&& d.product is None ==> r.label@ == "Устройство "@ + text::hex4(d.vendor_id) + ":"@
        + text::hex4(d.product_id)
    &&& r.value is Some
    &&& d.speed == UsbSpeed::Unknown ==> r.value->0@ == version
    &&& d.speed == UsbSpeed::Low ==> r.value->0@ == version + ", "@ + "1.5 Мбит/с"@
    &&& d.speed == UsbSpeed::Full ==> r.value->0@ == version + ", "@ + "12 Мбит/с"@
    &&& d.speed == UsbSpeed::High ==> r.value->0@ == version + ", "@ + "480 Мбит/с"@
    &&& d.speed == UsbSpeed::Super ==> r.value->0@ == version + ", "@ + "5 Гбит/с"@
    &&& d.speed == UsbSpeed::SuperPlus ==> r.value->0@ == version + ", "@ + "10 Гбит/с"@
}

/// A graphics card is shown by its name and its kind; its driver by name and version, as far as
/// they are told; an adapter without a name is not shown.
pub proof fn card_is_told_as_it_was_read(a: AdapterReading, g: Option<GpuInfo>)
    requires
        gpu_text(g) == gpu_of(a),
    ensures
        g is Some <==> text::trimmed(a.name@).len() > 0,
        g matches Some(card) ==> {
            let driver = text::trimmed(a.driver@).len() > 0;
            let version = text::trimmed(a.driver_info@).len() > 0;
            &&& card.name@ == a.name@
            &&& card.kind == a.kind
            &&& card.backend@ == a.backend@
            &&& card.driver is Some <==> driver || version
            &&& driver && version ==> card.driver->0@ == a.driver@ + " "@ + a.driver_info@
            &&& driver && !version ==> card.driver->0@ == a.driver@
            &&& !driver && version ==> card.driver->0@ == a.driver_info@
            &&& card.vendor is Some ==> card.vendor->0@ == vendor_label(a.vendor_id)
            &&& a.vendor_id == 0 ==> card.vendor is None
            &&& a.vendor_id == 0x10DE || a.vendor_id == 0x1002 || a.vendor_id == 0x8086
                ==> card.vendor is Some
        },
{
    reveal_strlit(" ");
    reveal_strlit("Unknown");
    reveal_strlit("NVIDIA");
    reveal_strlit("AMD");
    reveal_strlit("Intel");
    assert(" "@ =~= seq![' ']);
    assert("Unknown"@.len() == 7 && "NVIDIA"@.len() == 6 && "AMD"@.len() == 3 && "Intel"@.len()
        == 5);
    assert(a.driver@.push(' ') + a.driver_info@ =~= a.driver@ + " "@ + a.driver_info@);
    if let Some(card) = g {
        assert(card@ == gpu_of(a)->0);
        assert(card@.vendor == known_vendor(a.vendor_id));
        assert(text::said(card.vendor) == known_vendor(a.vendor_id));
        assert(text::said(card.driver) == gpu_of(a)->0.driver);
    }
}

/// The finding on a graphics card names it with its kind and lists its maker, its driver and
/// what draws.
pub proof fn card_is_reported(g: GpuInfo, c: Check)
    requires
        c@ == gpu_finding(g@),
    ensures
        c.name@ == "Видеокарта"@ && c.status == CheckStatus::Fine && c.advice is None,
        g.kind == GpuKind::Discrete ==> c.summary@ == g.name@ + ", "@ + "дискретная"@,
        g.kind == GpuKind::Integrated ==> c.summary@ == g.name@ + ", "@ + "встроенная"@,
        g.kind == GpuKind::Virtual ==> c.summary@ == g.name@ + ", "@ + "виртуальная"@,
        g.kind == GpuKind::Cpu ==> c.summary@ == g.name@ + ", "@ + "программная отрисовка"@,
        g.kind == GpuKind::Other ==> c.summary@ == g.name@ + ", "@ + "тип неизвестен"@,
        c.rows@.len() == 3,
        text::said(c.rows@[0].value) == text::said(g.vendor),
        text::said(c.rows@[1].value) == text::said(g.driver),
        text::said(c.rows@[2].value) == Some(g.backend@),
{
    assert(c@.rows.len() == c.rows@.len());
    assert(c@.rows[0] == c.rows@[0]@ && c@.rows[1] == c.rows@[1]@ && c@.rows[2] == c.rows@[2]@);
}

/// The report holds a finding on each part of the machine, in a fixed order, one for each
/// volume, and one on the graphics card where it is known.
pub proof fn report_tells_of_every_part(m: Readings, gpu: Option<GpuInfo>, r: SystemReport)
    requires
        r@ == all_findings(m, gpu_text(gpu)),
    ensures
        ({
            let volumes = if m.disks@.len() == 0 {
                1
            } else {
                m.disks@.len() as int
            };
            &&& r.checks@.len() == 6 + volumes + (if gpu is Some {
                1int
            } else {
                0
            })
            &&& r.checks@[0]@ == system_finding(m.system) && r.checks@[0].name@ == "Система"@
            &&& r.checks@[1]@ == cpu_finding(m.cpu) && r.checks@[1].name@ == "Процессор"@
            &&& r.checks@[2]@ == memory_finding(m.memory) && r.checks@[2].name@ == "Память"@
            &&& forall|i: int|
                0 <= i < m.disks@.len() ==> (#[trigger] r.checks@[3 + i])@ == disk_finding(
                    m.disks@[i],
                )
            &&& r.checks@[3 + volumes]@ == network_finding(m.networks@) && r.checks@[3
                + volumes].name@ == "Сеть"@
            &&& r.checks@[4 + volumes]@ == battery_finding(m.battery) && r.checks@[4
                + volumes].name@ == "Батарея"@
            &&& r.checks@[5 + volumes]@ == usb_finding(m.usb) && r.checks@[5 + volumes].name@
                == "USB"@
            &&& gpu is Some ==> r.checks@[6 + volumes]@ == gpu_finding(gpu->0@)
        }),
{
    let all = r@;
    let volumes = disk_findings(m.disks@);
    let n = volumes.len() as int;
    assert(all.len() == r.checks@.len());
    assert(n == if m.disks@.len() == 0 {
        1
    } else {
        m.disks@.len() as int
    });
    assert(all[0] == r.checks@[0]@ && all[1] == r.checks@[1]@ && all[2] == r.checks@[2]@);
    assert(all[3 + n] == r.checks@[3 + n]@ && all[4 + n] == r.checks@[4 + n]@ && all[5 + n]
        == r.checks@[5 + n]@);
    if gpu is Some {
        assert(all[6 + n] == r.checks@[6 + n]@);
    }
    assert forall|i: int| 0 <= i < m.disks@.len() implies (#[trigger] r.checks@[3 + i])@
        == disk_finding(m.disks@[i]) by {
        assert(all[3 + i] == r.checks@[3 + i]@);
        assert(all[3 + i] == volumes[i]);
    }
}

} // verus!
